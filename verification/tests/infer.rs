//! Tiling, fusion plans and the alignment bridge.

use stacker::bridge::{align_size, align_stack_ok, can_align, needs_downscale, stack_size, BridgeError};
use stacker::infer::{
    fuse_stack, recommended_tile, tile_offsets, tile_plan, tile_step, InferError, Span, StackStep,
    TileConfig, TilePlan,
};
use stacker::runtime::FusionStrategy;

#[test]
fn fuse_stack_single_frame_is_identity_shape() {
    let cfg = TileConfig { tile: 32, overlap: 4 };
    let plan = fuse_stack(FusionStrategy::Pairwise, &vec![(3, 12, 12)], cfg).unwrap();
    assert_eq!((plan.h, plan.w), (12, 12), "output shape mismatch");
    assert_eq!(plan.merges, 0);
    assert_eq!(plan.reports, 1);
    assert_eq!(plan.steps, vec![StackStep::Report { index: 0 }]);
}

#[test]
fn merging_reports_each_frame() {
    let shapes = vec![(3, 16, 16), (3, 16, 16), (3, 16, 16)];
    let plan = fuse_stack(FusionStrategy::Pairwise, &shapes, TileConfig::default()).unwrap();
    // A merge of frame `k` is played as appending `k`.
    let mut composite = vec![0];
    let mut seen = Vec::new();
    for step in &plan.steps {
        match *step {
            StackStep::Merge { frame } => composite.push(frame),
            StackStep::Report { index } => seen.push((index, composite.clone())),
            other => panic!("unexpected step {other:?}"),
        }
    }
    assert_eq!(seen, vec![(0, vec![0]), (1, vec![0, 1]), (2, vec![0, 1, 2])]);
    assert_eq!(composite, vec![0, 1, 2]);
}

#[test]
fn fuse_stack_small_no_tiling() {
    let cfg = TileConfig { tile: 32, overlap: 8 };
    let shapes = vec![(3, 16, 16), (3, 16, 16), (3, 16, 16)];
    let plan = fuse_stack(FusionStrategy::Pairwise, &shapes, cfg).unwrap();
    assert_eq!((plan.h, plan.w), (16, 16));
    assert_eq!(plan.tiles, TilePlan::Whole);
    assert_eq!((plan.merges, plan.reports), (2, 3));
}

#[test]
fn fuse_stack_tiled_path() {
    let cfg = TileConfig { tile: 16, overlap: 4 };
    let shapes = vec![(3, 40, 40), (3, 40, 40), (3, 40, 40)];
    let plan = fuse_stack(FusionStrategy::Pairwise, &shapes, cfg).unwrap();
    assert_eq!((plan.h, plan.w), (40, 40));
    let spans = || {
        vec![
            Span { start: 0, len: 16 },
            Span { start: 12, len: 16 },
            Span { start: 24, len: 16 },
        ]
    };
    assert_eq!(plan.tiles, TilePlan::Grid { rows: spans(), cols: spans() });
}

#[test]
fn fuse_stack_empty_is_error() {
    let result = fuse_stack(FusionStrategy::Pairwise, &Vec::new(), TileConfig::default());
    assert_eq!(result, Err(InferError::EmptyStack));
}

#[test]
fn fuse_stack_shape_mismatch_is_error() {
    let shapes = vec![(3, 16, 16), (3, 12, 16)];
    let result = fuse_stack(FusionStrategy::Pairwise, &shapes, TileConfig::default());
    assert_eq!(
        result,
        Err(InferError::ShapeMismatch { index: 1, expected: (3, 16, 16), got: (3, 12, 16) })
    );
}

#[test]
fn tile_config_for_model_uses_floor_for_zero_receptive_field() {
    let cfg = TileConfig::for_model(0);
    assert_eq!(cfg.overlap, 96);
    assert_eq!(cfg.tile, TileConfig::default().tile);
}

#[test]
fn tile_config_follows_a_wide_receptive_field() {
    assert_eq!(TileConfig::for_model(130), TileConfig { tile: 512, overlap: 130 });
    assert_eq!(TileConfig::default(), TileConfig { tile: 512, overlap: 64 });
    assert_eq!(recommended_tile(), TileConfig { tile: 512, overlap: 96 });
}

#[test]
fn batch_fusion_reports_each_row_of_tiles() {
    let cfg = TileConfig { tile: 10, overlap: 3 };
    let shapes = vec![(3, 24, 8), (3, 24, 8)];
    let plan = fuse_stack(FusionStrategy::Batch, &shapes, cfg).unwrap();
    assert_eq!((plan.merges, plan.reports), (0, 3));
    let steps: Vec<StackStep> = (0..3)
        .flat_map(|k| [StackStep::FuseRow { row: k }, StackStep::Report { index: k }])
        .collect();
    assert_eq!(plan.steps, steps);
    let whole = fuse_stack(FusionStrategy::Batch, &shapes, TileConfig::default()).unwrap();
    assert_eq!(whole.reports, 1);
    assert_eq!(whole.steps, vec![StackStep::FuseWhole, StackStep::Report { index: 0 }]);
}

#[test]
fn tiles_step_over_the_image_and_end_at_its_end() {
    assert_eq!(tile_offsets(40, 16, 12), vec![0, 12, 24]);
    assert_eq!(tile_offsets(41, 16, 12), vec![0, 12, 24, 25]);
    assert_eq!(tile_offsets(16, 16, 12), vec![0]);
    assert_eq!(tile_offsets(5, 16, 12), vec![0]);
    assert_eq!(tile_step(TileConfig { tile: 16, overlap: 4 }), 12);
    assert_eq!(tile_step(TileConfig { tile: 16, overlap: 16 }), 1);
    assert_eq!(tile_step(TileConfig { tile: 16, overlap: 99 }), 1);
}

#[test]
fn a_short_side_has_one_short_tile() {
    let plan = tile_plan(5, 20, TileConfig { tile: 16, overlap: 4 });
    assert_eq!(
        plan,
        TilePlan::Grid {
            rows: vec![Span { start: 0, len: 5 }],
            cols: vec![Span { start: 0, len: 16 }, Span { start: 4, len: 16 }],
        }
    );
}

#[test]
fn neighbouring_tiles_share_the_overlap() {
    let cfg = TileConfig { tile: 16, overlap: 5 };
    let TilePlan::Grid { rows, cols } = tile_plan(61, 33, cfg) else {
        panic!("the image is larger than a tile");
    };
    for spans in [rows, cols] {
        for pair in spans.windows(2) {
            assert!(pair[0].start + pair[0].len - pair[1].start >= cfg.overlap);
        }
    }
}

#[test]
fn fuse_planar_empty_is_error() {
    assert_eq!(stack_size(&Vec::new()), Err(BridgeError::EmptyStack));
}

#[test]
fn fuse_planar_shape_mismatch_is_error() {
    assert_eq!(
        stack_size(&vec![(16, 16), (16, 12)]),
        Err(BridgeError::ShapeMismatch { index: 1, exp_w: 16, exp_h: 16, got_w: 16, got_h: 12 })
    );
}

#[test]
fn align_planar_pairwise_empty_is_error() {
    assert_eq!(stack_size(&vec![]), Err(BridgeError::EmptyStack));
}

#[test]
fn align_planar_pairwise_shape_mismatch_is_error() {
    let r = stack_size(&vec![(16, 16), (16, 12)]);
    assert!(matches!(r, Err(BridgeError::ShapeMismatch { index: 1, .. })));
}

#[test]
fn stacks_of_one_size_are_accepted() {
    assert_eq!(stack_size(&vec![(64, 40), (64, 40), (64, 40)]), Ok((64, 40)));
}

#[test]
fn alignment_sees_small_frames() {
    assert!(!needs_downscale(512, 512));
    assert!(needs_downscale(513, 10));
    assert_eq!(align_size(64, 40, 0, 0), (40, 64));
    assert_eq!(align_size(2048, 1024, 256, 512), (256, 512));
    assert_eq!(align_size(4096, 3, 0, 512), (2, 512));
    assert!(can_align(2, 2));
    assert!(!can_align(1, 50));
    assert!(align_stack_ok(&vec![(2, 2), (64, 40)]));
    assert!(align_stack_ok(&Vec::new()));
    assert!(!align_stack_ok(&vec![(64, 40), (64, 1)]));
    assert!(!align_stack_ok(&vec![(64, 40), (1, 40), (64, 40)]));
}
