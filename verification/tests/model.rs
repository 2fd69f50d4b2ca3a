//! Presets, network layouts and the loss scales.

use stacker::loss::{avg_pool_scale, gradient_scales};
use stacker::model::{
    align_geometry_ok, align_layout, context_dilations, correlation_windows, receptive_field,
    AlignLayout, BatchAlignNetConfig, BatchMergeNetConfig, FocusMergeNetConfig,
    FusionAlignNetConfig, ModelSize, DEFAULT_REFINE_SCALE_BITS,
};

#[test]
fn model_size_parse_roundtrips() {
    for size in ModelSize::ALL {
        assert_eq!(ModelSize::parse(size.as_str()), Some(size));
        assert_eq!(ModelSize::parse(&size.as_str().to_uppercase()), Some(size));
    }
    assert_eq!(ModelSize::parse("nonsense"), None);
}

#[test]
fn model_size_parse_trims_white_space() {
    assert_eq!(ModelSize::parse("  xl\t\n"), Some(ModelSize::Xl));
    assert_eq!(ModelSize::parse("\u{2003}XXL\u{a0}"), Some(ModelSize::Xxl));
    assert_eq!(ModelSize::parse("x l"), None);
    assert_eq!(ModelSize::parse(""), None);
}

#[test]
fn presets_have_their_published_dimensions() {
    let dims: Vec<(usize, usize)> = ModelSize::ALL.iter().map(|s| s.dims()).collect();
    assert_eq!(dims, vec![(16, 2), (24, 3), (32, 4), (48, 6), (64, 9), (96, 12)]);
    let align: Vec<(usize, usize)> = ModelSize::ALL.iter().map(|s| s.align_dims()).collect();
    assert_eq!(align, vec![(32, 1), (48, 1), (64, 2), (96, 2), (128, 3), (160, 3)]);
}

#[test]
fn configs_follow_their_preset() {
    let focus = FocusMergeNetConfig::from_size(ModelSize::L);
    assert_eq!((focus.width, focus.depth, focus.norm_groups), (48, 6, 8));
    assert_eq!(f64::from_bits(focus.refine_scale), 0.1);
    let batch = BatchMergeNetConfig::from_size(ModelSize::S);
    assert_eq!((batch.width, batch.depth, batch.norm_groups), (24, 3, 8));
    assert_eq!(batch.refine_scale, DEFAULT_REFINE_SCALE_BITS);
    let align = BatchAlignNetConfig::from_size(ModelSize::Xl);
    assert_eq!((align.width, align.depth, align.norm_groups, align.corr_radius), (128, 3, 8, 4));
    let pair = FusionAlignNetConfig::from_size(ModelSize::Xs);
    assert_eq!((pair.width, pair.depth, pair.norm_groups, pair.corr_radius), (32, 1, 8, 4));
}

#[test]
fn dilations_cycle_and_widen_the_receptive_field() {
    assert_eq!(context_dilations(6), vec![1, 2, 4, 8, 1, 2]);
    assert_eq!(receptive_field(0), 2);
    assert_eq!(receptive_field(4), 32);
    assert_eq!(receptive_field(12), 92);
}

#[test]
fn layouts_count_their_channels() {
    let focus = FocusMergeNetConfig::from_size(ModelSize::M).layout();
    assert_eq!((focus.gate_inputs, focus.refine_inputs), (67, 9));
    assert_eq!(focus.dilations, vec![1, 2, 4, 8]);
    let batch = BatchMergeNetConfig::from_size(ModelSize::M).layout();
    assert_eq!((batch.gate_inputs, batch.refine_inputs), (33, 35));
    assert_eq!(
        align_layout(64, 2, 8, 4),
        AlignLayout {
            width: 64,
            half_width: 32,
            norm_groups: 8,
            depth: 2,
            corr_channels: 81,
            head_inputs: 209,
        }
    );
}

#[test]
fn alignment_widths_are_checked() {
    for size in ModelSize::ALL {
        assert!(align_geometry_ok(size.align_dims().0, 8));
    }
    assert!(!align_geometry_ok(24, 8));
    assert!(!align_geometry_ok(33, 1));
    assert!(!align_geometry_ok(16, 0));
    assert!(align_geometry_ok(0, 0));
}

#[test]
fn correlation_windows_run_row_by_row() {
    let windows = correlation_windows(1);
    assert_eq!(
        windows,
        vec![(0, 0), (0, 1), (0, 2), (1, 0), (1, 1), (1, 2), (2, 0), (2, 1), (2, 2)]
    );
    assert_eq!(correlation_windows(0), vec![(0, 0)]);
}

#[test]
fn gradient_scales_stop_where_too_little_is_left() {
    assert_eq!(avg_pool_scale(1, 1, 0), Some(1));
    assert_eq!(avg_pool_scale(16, 16, 3), Some(8));
    assert_eq!(avg_pool_scale(16, 15, 3), None);
    assert_eq!(gradient_scales(16, 16, 3), vec![0, 1, 2]);
    assert_eq!(gradient_scales(7, 64, 3), vec![0, 1]);
    assert_eq!(gradient_scales(3, 3, 3), vec![0]);
    assert_eq!(gradient_scales(16, 16, 0), Vec::<usize>::new());
}
