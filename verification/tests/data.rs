//! Scene descriptors, samples and datasets.

use stacker::data::composite::{prefix_composite, prefix_confidence, IN_FOCUS};
use stacker::data::crop::{
    crop_chw, crop_hw, CropParams, DataError, MetaField, MetadataFault,
};
use stacker::data::dataset::{
    enumerate_pairs, AlignStackDataset, BatchStackDataset, FocusStackDataset,
};
use stacker::data::sample::{ImageSet, MergeSample, RgbImage};
use stacker::data::scene::{
    discover_real_stacks, AlignSceneMeta, AlignSequence, FolderItem, LoadKind, RealStackScene,
    RolloutSequence, SceneMeta,
};

fn bits(v: f32) -> u32 {
    v.to_bits()
}

/// The path that errors about the scene in a directory name.
fn descriptor(dir: &str) -> String {
    format!("{dir}{}metadata.json", std::path::MAIN_SEPARATOR)
}

fn names(prefix: &str, n: usize) -> Vec<String> {
    (0..n).map(|i| format!("{prefix}_{i:03}.png")).collect()
}

/// A scene of three planes: only frame 1 is in focus.
fn scene_meta() -> SceneMeta {
    SceneMeta {
        n_planes: 3,
        focus_fractions: vec![bits(0.0), bits(0.5), bits(1.0)],
        stack: names("frame", 3),
        masks: names("mask", 3),
        allfocus: "allfocus.png".to_owned(),
        occlusion: "occlusion.png".to_owned(),
        merge_order: vec![0, 1, 2],
    }
}

fn scene(dir: &str) -> RolloutSequence {
    RolloutSequence::new(dir.to_owned(), scene_meta()).unwrap()
}

const SIDE: usize = 8;

/// A picture of one colour, as three planes.
fn colour(rgb: [f32; 3]) -> Vec<f32> {
    let mut out = Vec::new();
    for c in rgb {
        out.extend(vec![c; SIDE * SIDE]);
    }
    out
}

fn flat(v: f32) -> Vec<u32> {
    vec![bits(v); SIDE * SIDE]
}

/// The image that a file name of the scene stands for.
fn load(set: &mut ImageSet<f32>, seq: &RolloutSequence, k: Option<usize>) {
    let loads = match k {
        Some(k) => seq.step_loads(k),
        None => seq.batch_loads(),
    };
    for l in loads {
        match l.kind {
            LoadKind::Rgb => {
                let rgb = if l.file == "allfocus.png" { [0.0, 1.0, 0.0] } else { [1.0, 0.0, 0.0] };
                set.admit_rgb(colour(rgb), SIDE, SIDE).unwrap();
            }
            LoadKind::Gray => {
                let v = if l.file == "mask_001.png" { 200.0 / 255.0 } else { 0.0 };
                set.admit_gray(flat(v), SIDE, SIDE).unwrap();
            }
        }
    }
}

fn step(seq: &RolloutSequence, k: usize, crop: Option<CropParams>) -> MergeSample<f32> {
    let mut set = ImageSet::new();
    load(&mut set, seq, Some(k));
    seq.get_step(k, set, crop).unwrap()
}

fn sizes(s: &MergeSample<f32>) -> [usize; 6] {
    [
        s.target.len(),
        s.target_conf.len(),
        s.source.len(),
        s.gt_merged.len(),
        s.gt_conf.len(),
        s.occlusion.len(),
    ]
}

#[test]
fn test_rollout_step_count() {
    assert_eq!(scene("scene0").n_steps, 2);
}

#[test]
fn test_tensor_shapes_full_image() {
    let sample = step(&scene("scene0"), 0, None);
    assert_eq!((sample.h, sample.w), (8, 8));
    assert_eq!(sizes(&sample), [3 * 64, 64, 3 * 64, 3 * 64, 64, 64]);
}

#[test]
fn test_prefix_composite_logic() {
    let frame_red = vec![1.0f32, 0.0, 0.0];
    let frame_blue = vec![0.0f32, 0.0, 1.0];
    let allfocus = vec![0.0f32, 1.0, 0.0];

    let result = prefix_composite(
        &vec![frame_red.clone()],
        &vec![vec![bits(0.5)]],
        &allfocus,
        1,
        1,
        1,
        bits(0.1),
    );
    assert!(
        (result[0] - 0.0).abs() < 1e-6
            && (result[1] - 1.0).abs() < 1e-6
            && (result[2] - 0.0).abs() < 1e-6,
        "expected allfocus (green) when mask > threshold, got {result:?}"
    );

    let result2 = prefix_composite(
        &vec![frame_red, frame_blue],
        &vec![vec![bits(0.05)], vec![bits(0.08)]],
        &allfocus,
        2,
        1,
        1,
        bits(0.1),
    );
    assert!(
        (result2[0] - 0.0).abs() < 1e-6
            && (result2[1] - 0.0).abs() < 1e-6
            && (result2[2] - 1.0).abs() < 1e-6,
        "expected blue frame (argmax mask) when all masks < threshold, got {result2:?}"
    );
}

#[test]
fn test_crop_patch_size() {
    let crop = CropParams { top: 0, left: 0, size: 4 };
    let sample = step(&scene("scene0"), 0, Some(crop));
    assert_eq!((sample.h, sample.w), (4, 4));
    assert_eq!(sizes(&sample), [3 * 16, 16, 3 * 16, 3 * 16, 16, 16]);
}

#[test]
fn test_dataset_item_count() {
    let ds = FocusStackDataset::from_root(vec![scene("scene0"), scene("scene1")], None);
    assert_eq!(ds.len(), 4);
    assert!(!ds.is_empty());
}

#[test]
fn test_dataset_get_shapes() {
    let ds = FocusStackDataset::from_root(vec![scene("scene0")], None);
    let (seq, k) = ds.get(0);
    let s = step(seq, k, ds.crop);
    assert_eq!((s.h, s.w), (8, 8));
    assert_eq!(s.target.len(), 3 * 64);
    assert_eq!(s.target_conf.len(), 64);
    assert_eq!(s.gt_conf.len(), 64);
}

#[test]
fn get_batch_loads_masks_and_occlusion() {
    let seq = scene("scene0");
    let mut set = ImageSet::new();
    load(&mut set, &seq, None);
    let sample = seq.get_batch(set, None).unwrap();
    assert_eq!((sample.n, sample.h, sample.w), (3, 8, 8));
    assert_eq!(sample.stack.len(), 3 * 3 * 64);
    assert_eq!(sample.masks.len(), 3 * 64);
    assert_eq!(sample.occlusion.len(), 64);

    let np = 8 * 8;
    let expected_1 = 200.0_f32 / 255.0;
    for px in 0..np {
        let at = |frame: usize| f32::from_bits(sample.masks[frame * np + px]);
        assert!((at(0) - 0.0).abs() < 1e-5, "frame 0 mask should be 0 at px {px}");
        assert!((at(1) - expected_1).abs() < 1e-5, "frame 1 mask should be ~{expected_1}");
        assert!((at(2) - 0.0).abs() < 1e-5, "frame 2 mask should be 0 at px {px}");
    }
    for (px, &v) in sample.occlusion.iter().enumerate() {
        assert!((f32::from_bits(v) - 0.0).abs() < 1e-5, "occlusion should be 0 at px {px}");
    }
}

#[test]
fn get_batch_crops_masks_and_occlusion() {
    let seq = scene("scene0");
    let mut set = ImageSet::new();
    load(&mut set, &seq, None);
    let crop = CropParams { top: 0, left: 0, size: 4 };
    let sample = seq.get_batch(set, Some(crop)).unwrap();
    assert_eq!((sample.n, sample.h, sample.w), (3, 4, 4));
    assert_eq!(sample.stack.len(), 3 * 3 * 16);
    assert_eq!(sample.masks.len(), 3 * 16);
    assert_eq!(sample.occlusion.len(), 16);
}

#[test]
fn rollout_steps_chain() {
    let seq = scene("scene0");
    let first = step(&seq, 0, None);
    let second = step(&seq, 1, None);
    assert_eq!(second.target, first.gt_merged);
    assert_eq!(second.target_conf, first.gt_conf);
    assert_eq!(first.target, colour([1.0, 0.0, 0.0]), "frame 0 alone is out of focus");
    assert_eq!(first.gt_merged, colour([0.0, 1.0, 0.0]), "frame 1 is in focus everywhere");
    assert_eq!(first.gt_conf, flat(200.0 / 255.0));
}

#[test]
fn confidence_is_the_best_weight_so_far() {
    let masks = vec![vec![bits(0.2), bits(-1.0)], vec![bits(0.1), bits(0.4)]];
    assert_eq!(prefix_confidence(&masks, 1, 2), vec![bits(0.2), bits(0.0)]);
    assert_eq!(prefix_confidence(&masks, 2, 2), vec![bits(0.2), bits(0.4)]);
    assert_eq!(prefix_confidence(&masks, 0, 2), vec![bits(0.0), bits(0.0)]);
    assert_eq!(f32::from_bits(IN_FOCUS), 0.1);
}

#[test]
fn the_first_of_equal_weights_wins() {
    let frames = vec![vec![1u8, 1, 1], vec![2, 2, 2]];
    let masks = vec![vec![bits(0.05)], vec![bits(0.05)]];
    assert_eq!(prefix_composite(&frames, &masks, &vec![9, 9, 9], 2, 1, 1, IN_FOCUS), vec![1, 1, 1]);
    let masks = vec![vec![f32::NAN.to_bits()], vec![bits(0.05)]];
    assert_eq!(prefix_composite(&frames, &masks, &vec![9, 9, 9], 2, 1, 1, IN_FOCUS), vec![2, 2, 2]);
}

#[test]
fn crops_cut_out_a_square() {
    let data: Vec<u8> = (0..24).collect();
    let cp = CropParams { top: 1, left: 1, size: 2 };
    assert_eq!(crop_hw(&data[..12], 3, 4, cp), Ok(vec![5, 6, 9, 10]));
    assert_eq!(crop_chw(&data, 3, 4, 2, cp), Ok(vec![5, 6, 9, 10, 17, 18, 21, 22]));
    let tall = CropParams { top: 0, left: 0, size: 4 };
    assert_eq!(crop_hw(&data[..12], 3, 4, tall), Err(DataError::CropTooLarge { crop: 4, dim: 3 }));
    assert_eq!(crop_chw(&data, 4, 3, 2, tall), Err(DataError::CropTooLarge { crop: 4, dim: 3 }));
}

#[test]
fn images_of_another_size_are_refused() {
    let mut set: ImageSet<u8> = ImageSet::new();
    set.admit_rgb(vec![0; 3 * 6], 2, 3).unwrap();
    assert_eq!(
        set.admit_rgb(vec![0; 3 * 6], 3, 2),
        Err(DataError::ShapeMismatch { expected: (3, 2, 3), got: (3, 3, 2) })
    );
    assert_eq!(
        set.admit_gray(vec![0; 4], 2, 2),
        Err(DataError::ShapeMismatch { expected: (1, 2, 3), got: (1, 2, 2) })
    );
    assert_eq!(set.admit_gray(vec![0; 6], 2, 3), Ok(()));
}

#[test]
fn inconsistent_scenes_are_refused() {
    let fault = |change: fn(&mut SceneMeta)| {
        let mut meta = scene_meta();
        change(&mut meta);
        match RolloutSequence::new("s".to_owned(), meta) {
            Err(DataError::InvalidMetadata { path, reason }) => {
                assert_eq!(path, descriptor("s"));
                reason
            }
            other => panic!("expected a fault, got {other:?}"),
        }
    };
    let wrong = |field: MetaField| MetadataFault::WrongLength { field, got: 2, n_planes: 3 };
    let reason = fault(|m| {
        m.focus_fractions.pop();
    });
    assert_eq!(reason, wrong(MetaField::FocusFractions));
    assert_eq!(reason.text(), "`focus_fractions` has length 2, expected n_planes=3");
    assert_eq!(
        fault(|m| {
            m.stack.pop();
        }),
        wrong(MetaField::Stack)
    );
    assert_eq!(
        fault(|m| {
            m.masks.pop();
        }),
        wrong(MetaField::Masks)
    );
    assert_eq!(
        fault(|m| {
            m.merge_order.pop();
        }),
        wrong(MetaField::MergeOrder)
    );
    let small = fault(|m| {
        m.n_planes = 1;
        m.focus_fractions.truncate(1);
        m.stack.truncate(1);
        m.masks.truncate(1);
        m.merge_order.truncate(1);
    });
    assert_eq!(small, MetadataFault::TooFewPlanes { min: 2 });
    assert_eq!(small.text(), "n_planes must be >= 2");
}

fn align_scene(n_planes: usize, dims: [u32; 2]) -> AlignSequence {
    let (one, zero) = (bits(1.0), bits(0.0));
    let meta = AlignSceneMeta {
        n_planes,
        stack: names("frame", n_planes),
        alignment_gt: vec![[[one, zero, zero], [zero, one, zero], [zero, zero, one]]; n_planes],
        cropped_dims: dims,
    };
    AlignSequence::new("scene0".to_owned(), meta).unwrap()
}

#[test]
fn inconsistent_alignment_scenes_are_refused() {
    let mut meta = align_scene(2, [4, 4]).meta;
    meta.alignment_gt.pop();
    assert!(matches!(
        AlignSequence::new("s".to_owned(), meta),
        Err(DataError::InvalidMetadata {
            path,
            reason: MetadataFault::WrongLength { field: MetaField::AlignmentGt, got: 1, n_planes: 2 }
        }) if path == descriptor("s")
    ));
    let meta = AlignSceneMeta {
        n_planes: 0,
        stack: Vec::new(),
        alignment_gt: Vec::new(),
        cropped_dims: [4, 4],
    };
    assert!(matches!(
        AlignSequence::new("s".to_owned(), meta),
        Err(DataError::InvalidMetadata { reason: MetadataFault::TooFewPlanes { min: 1 }, .. })
    ));
}

fn picture(v: u8, w: usize, h: usize) -> RgbImage<u8> {
    RgbImage { data: vec![v; 3 * w * h], h, w }
}

#[test]
fn get_pair_out_of_range_frame_index_errors() {
    let seq = align_scene(2, [8, 8]);
    let err = seq.get_pair(5, picture(0, 8, 8), picture(1, 8, 8), None).unwrap_err();
    assert!(
        matches!(err, DataError::InvalidMetadata { .. }),
        "expected InvalidMetadata for out-of-range frame_index, got: {err:?}"
    );
    assert_eq!(seq.pair_loads(5).unwrap_err(), err);
    assert_eq!(
        err,
        DataError::InvalidMetadata {
            path: descriptor("scene0"),
            reason: MetadataFault::FrameOutOfRange { frame_index: 5, n_planes: 2 }
        }
    );
    let DataError::InvalidMetadata { reason, .. } = err else { unreachable!() };
    assert_eq!(reason.text(), "frame_index 5 out of range for n_planes=2");
}

#[test]
fn pairs_hold_the_reference_and_the_frame() {
    let seq = align_scene(2, [8, 6]);
    let (reference, frame) = seq.pair_loads(1).unwrap();
    assert_eq!((reference.file.as_str(), frame.file.as_str()), ("frame_000.png", "frame_001.png"));
    let sample = seq.get_pair(1, picture(3, 8, 6), picture(4, 8, 6), None).unwrap();
    assert_eq!((sample.h, sample.w), (6, 8));
    assert_eq!(sample.reference, vec![3; 3 * 48]);
    assert_eq!(sample.frame, vec![4; 3 * 48]);
    let crop = CropParams { top: 1, left: 2, size: 4 };
    let sample = seq.get_pair(0, picture(3, 8, 6), picture(3, 8, 6), Some(crop)).unwrap();
    assert_eq!((sample.h, sample.w, sample.frame.len()), (4, 4, 48));
    assert_eq!(
        seq.get_pair(1, picture(3, 6, 8), picture(4, 8, 6), None).unwrap_err(),
        DataError::ShapeMismatch { expected: (3, 6, 8), got: (3, 8, 6) }
    );
    assert_eq!(
        seq.get_pair(1, picture(3, 8, 6), picture(4, 8, 5), None).unwrap_err(),
        DataError::ShapeMismatch { expected: (3, 6, 8), got: (3, 5, 8) }
    );
    let wide = CropParams { top: 0, left: 0, size: 7 };
    assert_eq!(
        seq.get_pair(1, picture(3, 8, 6), picture(4, 8, 6), Some(wide)).unwrap_err(),
        DataError::CropTooLarge { crop: 7, dim: 6 }
    );
}

#[test]
fn alignment_stacks_keep_frame_order() {
    let seq = align_scene(2, [2, 1]);
    assert_eq!(seq.stack_loads().len(), 2);
    let mut set: ImageSet<u8> = ImageSet::new();
    set.admit_rgb(vec![1; 6], 1, 2).unwrap();
    set.admit_rgb(vec![2; 6], 1, 2).unwrap();
    let sample = seq.get(set, None).unwrap();
    assert_eq!((sample.n, sample.h, sample.w), (2, 1, 2));
    assert_eq!(sample.stack, vec![1, 1, 1, 1, 1, 1, 2, 2, 2, 2, 2, 2]);
    let mut set: ImageSet<u8> = ImageSet::new();
    set.admit_rgb(vec![1; 6], 2, 1).unwrap();
    set.admit_rgb(vec![2; 6], 2, 1).unwrap();
    assert_eq!(
        seq.get(set, None).unwrap_err(),
        DataError::ShapeMismatch { expected: (3, 1, 2), got: (3, 2, 1) }
    );
}

#[test]
fn enumerate_pairs_covers_every_frame_per_scene() {
    let scenes = vec![align_scene(3, [4, 4]), align_scene(1, [4, 4])];
    let examples = enumerate_pairs(&scenes);
    assert_eq!(examples.len(), 4, "3 + 1 frames across the two scenes");
    let frames_of = |scene: usize| -> Vec<usize> {
        examples.iter().filter(|e| e.0 == scene).map(|e| e.1).collect()
    };
    assert_eq!(frames_of(0), vec![0, 1, 2]);
    assert_eq!(
        frames_of(1),
        vec![0],
        "single-frame scene contributes exactly the frame-0 self-pair"
    );
}

#[test]
fn datasets_list_their_scenes() {
    let ds = FocusStackDataset::from_root(vec![scene("a"), scene("b")], None);
    let at: Vec<(&str, usize)> = (0..4)
        .map(|i| {
            let (seq, k) = ds.get(i);
            (seq.scene_dir.as_str(), k)
        })
        .collect();
    assert_eq!(at, vec![("a", 0), ("a", 1), ("b", 0), ("b", 1)]);
    let batch = BatchStackDataset::from_root(vec![scene("a"), scene("b")], None);
    assert_eq!((batch.len(), batch.is_empty()), (2, false));
    assert_eq!(batch.get(1).scene_dir, "b");
    let align = AlignStackDataset::from_root(vec![align_scene(2, [4, 4])], None);
    assert_eq!((align.len(), align.is_empty()), (1, false));
    assert_eq!(align.get(0).meta.n_planes, 2);
    assert!(FocusStackDataset::from_root(Vec::new(), None).is_empty());
    assert!(BatchStackDataset::from_root(Vec::new(), None).is_empty());
    assert!(AlignStackDataset::from_root(Vec::new(), None).is_empty());
}

#[test]
fn steps_load_along_the_merge_order() {
    let mut meta = scene_meta();
    meta.merge_order = vec![2, 0, 1];
    let seq = RolloutSequence::new("s".to_owned(), meta).unwrap();
    assert!(seq.order_is_in_range(3));
    let files: Vec<String> = seq.step_loads(0).into_iter().map(|l| l.file).collect();
    assert_eq!(
        files,
        vec![
            "frame_002.png",
            "mask_002.png",
            "frame_000.png",
            "mask_000.png",
            "allfocus.png",
            "occlusion.png",
            "frame_000.png",
        ]
    );
    let mut meta = scene_meta();
    meta.merge_order = vec![0, 1, 7];
    let seq = RolloutSequence::new("s".to_owned(), meta).unwrap();
    assert!(seq.order_is_in_range(2));
    assert!(!seq.order_is_in_range(3));
}

fn files(paths: &[&str]) -> Vec<FolderItem> {
    paths.iter().map(|p| FolderItem { path: (*p).to_owned(), is_file: true }).collect()
}

#[test]
fn a_directory_is_no_frame() {
    let mut listing = files(&["s/b.PNG", "s/a.jpg", "s/c.tiff", "s/notes.txt"]);
    listing.push(FolderItem { path: "s/d.png".to_owned(), is_file: false });
    let scene = RealStackScene::new("s".to_owned(), listing);
    assert_eq!(scene.scene_dir, "s");
    assert_eq!(scene.frames, vec!["s/a.jpg", "s/b.PNG"]);
    assert_eq!(scene.len(), 2);
    let folders = vec![FolderItem { path: "t/d.png".to_owned(), is_file: false }];
    assert!(RealStackScene::new("t".to_owned(), folders).is_empty());
}

#[test]
fn real_stacks_hold_images_only() {
    let listing = files(&["r/b.PNG", "r/notes.txt", "r/a.jpeg", "r/c.tif", "r/d.tiff", "r/e"]);
    let scene = RealStackScene::new("r".to_owned(), listing);
    assert_eq!(scene.frames, vec!["r/a.jpeg", "r/b.PNG", "r/c.tif"]);
    assert_eq!((scene.len(), scene.is_empty()), (3, false));
    let empty = RealStackScene::new("q".to_owned(), files(&["q/x.md"]));
    assert!(empty.is_empty());
    let other = RealStackScene::new("p".to_owned(), files(&["p/1.jpg"]));
    let found = discover_real_stacks(vec![scene, empty, other]);
    let dirs: Vec<&str> = found.iter().map(|s| s.scene_dir.as_str()).collect();
    assert_eq!(dirs, vec!["p", "r"]);
}

#[test]
fn real_stacks_are_cropped() {
    let scene = RealStackScene::new("r".to_owned(), files(&["r/a.png"]));
    let mut set: ImageSet<u8> = ImageSet::new();
    set.admit_rgb((0..12).collect(), 2, 2).unwrap();
    let crop = CropParams { top: 1, left: 0, size: 1 };
    let sample = scene.get(set, Some(crop)).unwrap();
    assert_eq!((sample.n, sample.h, sample.w, sample.stack), (1, 1, 1, vec![2, 6, 10]));
    let none = RealStackScene::new("q".to_owned(), Vec::new());
    let sample = none.get(ImageSet::<u8>::new(), Some(CropParams { top: 0, left: 0, size: 0 }));
    assert_eq!(sample.unwrap().n, 0);
    let sample = none.get(ImageSet::<u8>::new(), Some(CropParams { top: 5, left: 9, size: 0 }));
    assert_eq!(sample.unwrap().n, 0);
}

#[test]
fn a_pair_is_part_of_the_whole_sample() {
    let mut seq = align_scene(3, [3, 2]);
    for (i, m) in seq.meta.alignment_gt.iter_mut().enumerate() {
        m[0][2] = bits(i as f32);
    }
    let image = |i: u8| -> Vec<u8> { (0..18).map(|k| 20 * i + k).collect() };
    let crop = CropParams { top: 0, left: 1, size: 2 };
    for crop in [None, Some(crop)] {
        let mut set: ImageSet<u8> = ImageSet::new();
        for i in 0..3 {
            set.admit_rgb(image(i), 2, 3).unwrap();
        }
        let whole = seq.get(set, crop).unwrap();
        let len = 3 * whole.h * whole.w;
        assert_eq!((whole.full_w, whole.full_h), (3, 2));
        for k in 0..3usize {
            let reference = RgbImage { data: image(0), h: 2, w: 3 };
            let frame = RgbImage { data: image(k as u8), h: 2, w: 3 };
            let pair = seq.get_pair(k, reference, frame, crop).unwrap();
            assert_eq!((pair.h, pair.w), (whole.h, whole.w));
            assert_eq!(pair.reference, whole.stack[..len].to_vec());
            assert_eq!(pair.frame, whole.stack[k * len..(k + 1) * len].to_vec());
            assert_eq!(pair.gt_matrix, whole.gt_matrices[k]);
            assert_eq!(pair.gt_matrix[0][2], bits(k as f32));
            assert_eq!((pair.full_w, pair.full_h), (3, 2));
        }
    }
}

#[test]
fn earlier_refusals_come_before_the_crop() {
    let seq = align_scene(2, [8, 6]);
    let outside = Some(CropParams { top: 5, left: 5, size: 4 });
    assert!(matches!(
        seq.get_pair(2, picture(3, 8, 6), picture(4, 8, 6), outside),
        Err(DataError::InvalidMetadata { .. })
    ));
    assert!(matches!(
        seq.get_pair(1, picture(3, 8, 6), picture(4, 8, 5), outside),
        Err(DataError::ShapeMismatch { .. })
    ));
    let mut set: ImageSet<u8> = ImageSet::new();
    set.admit_rgb(vec![1; 90], 5, 6).unwrap();
    set.admit_rgb(vec![2; 90], 5, 6).unwrap();
    assert!(matches!(seq.get(set, outside), Err(DataError::ShapeMismatch { .. })));
}
