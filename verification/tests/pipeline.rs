//! The stacking pipeline: clipping, schedules, caching and output.

use stacker::discovery::{ModelEntry, ModelManifest};
use stacker::model::ModelSize;
use stacker::order::{greater, kth_smallest, positive};
use stacker::paths::{extension, folded_extension, join, same_path, sort_by_name, stem};
use stacker::pipeline::cache::{
    read_blob, write_blob, BlobError, ByteOrder, DecodeStep, FrameCache,
};
use stacker::pipeline::clip::{clip_tile_to_crop, crop_interleaved, CropRect, TileClip};
use stacker::pipeline::frames::{
    alignment_schedule, frame_alignment, raw_frames, resolves_crop, select_frames, AlignSetup,
    AlignStep, AlignmentMode, FrameAlignment, NeuralMatrix, PipelineProgress, SeedSource,
};
use stacker::pipeline::fusion::{
    align_setup, fused_tiles, fusion_schedule, tile_paste, FuseStep, TileCoordinate, TilePaste,
    TileSite,
};
use stacker::pipeline::load::{collect_image_paths, DirItem};
use stacker::pipeline::output::{
    finish_rgb16, finish_rgb8, is_jpeg_output, jpeg_quality, output_size, paste_tile_to_rgb16,
    paste_tile_to_rgb8, save_plan, supports_16bit_output, uses_16bit, SavePlan,
};
use stacker::pipeline::relief::{
    sample_region, sample_stride, threshold_of, threshold_population,
};
use stacker::pipeline::run::{plan_output, plan_run, BuiltParts, Encoding, RunSettings};
use stacker::pipeline::select::{
    select_alignment_model, select_fusion_model, select_run_device, FusionMode, ModelKind,
    SelectError,
};
use stacker::runtime::{Backends, DeviceError, InferDevice};
use stacker::text::{comes_before, decimal, decimal3, parse_usize};

#[test]
fn tile_fully_inside_crop_is_unclipped() {
    let clip = clip_tile_to_crop(200, 200, 100, 100, (16, 16), 0, 0, 1000, 1000);
    assert_eq!(
        clip,
        Some(TileClip { pad_off: (16, 16), dest_off: (200, 200), width: 100, height: 100 })
    );
}

#[test]
fn tile_fully_outside_crop_is_none() {
    let clip = clip_tile_to_crop(500, 500, 100, 100, (16, 16), 0, 0, 100, 100);
    assert_eq!(clip, None);
}

#[test]
fn tile_partially_overlapping_crop_is_clipped_correctly() {
    let clip = clip_tile_to_crop(0, 0, 100, 100, (16, 16), 50, 50, 100, 100);
    assert_eq!(
        clip,
        Some(TileClip { pad_off: (66, 66), dest_off: (0, 0), width: 50, height: 50 })
    );
}

#[test]
fn tile_touching_crop_edge_is_none() {
    let clip = clip_tile_to_crop(0, 0, 50, 50, (16, 16), 50, 50, 100, 100);
    assert_eq!(clip, None);
}

#[test]
fn crop_fully_inside_one_tile() {
    let clip = clip_tile_to_crop(0, 0, 512, 512, (0, 0), 100, 100, 50, 50);
    assert_eq!(
        clip,
        Some(TileClip { pad_off: (100, 100), dest_off: (0, 0), width: 50, height: 50 })
    );
}

#[test]
fn interleaved_buffers_are_cropped() {
    let src: Vec<u8> = (0..24).collect();
    assert_eq!(crop_interleaved(&src, 4, 2, 1, 1, 2, 2), vec![10, 11, 12, 13, 18, 19, 20, 21]);
    assert_eq!(crop_interleaved(&src, 4, 2, 1, 1, 2, 0), Vec::<u8>::new());
}

#[test]
fn test_blob_round_trip_tiny_synthetic_frame() {
    let order = FrameCache::new().order();
    let rgb16: Vec<u16> = vec![100, 200, 300, 400, 500, 600, 700, 800, 900, 1000, 1100, 1200];
    let blob = write_blob(order, 2, 2, &rgb16);
    let (rw, rh, rdata) = read_blob(order, &blob).expect("read blob back");
    assert_eq!(rw, 2);
    assert_eq!(rh, 2);
    assert_eq!(rdata, rgb16);
}

#[test]
fn test_read_blob_rejects_bad_magic() {
    let order = FrameCache::new().order();
    let err = read_blob(order, &[0u8; 20]).unwrap_err();
    assert_eq!(err, BlobError::BadMagic);
    assert_eq!(
        err.message("t/bad.bin"),
        "frame cache blob t/bad.bin has bad magic (this is an ephemeral per-run cache — it should \
         never be read back across runs)"
    );
}

#[test]
fn test_read_blob_rejects_truncated_file() {
    let order = FrameCache::new().order();
    let err = read_blob(order, &[0u8; 4]).unwrap_err();
    assert_eq!(err, BlobError::Truncated { len: 4 });
    assert_eq!(
        err.message("t/short.bin"),
        "frame cache blob t/short.bin is truncated (only 4 bytes, need at least 16)"
    );
}

#[test]
fn test_frame_cache_build_is_empty_for_no_raw_paths() {
    let steps = FrameCache::build(&vec![false, false]);
    assert!(steps.is_empty(), "no RAW paths means nothing is decoded");
    assert_eq!(FrameCache::new().lookup("a.png"), None);
}

#[test]
fn blobs_are_laid_out_in_either_byte_order() {
    let little = write_blob(ByteOrder::Little, 1, 1, &[0x0102, 3, 0xff00]);
    assert_eq!(
        little,
        vec![
            0x42, 0x46, 0x53, 0x5a, 1, 0, 0, 0, 1, 0, 0, 0, 1, 0, 0, 0, 0x02, 0x01, 3, 0, 0, 0xff
        ]
    );
    let big = write_blob(ByteOrder::Big, 1, 1, &[0x0102, 3, 0xff00]);
    assert_eq!(
        big,
        vec![
            0x5a, 0x53, 0x46, 0x42, 0, 0, 0, 1, 0, 0, 0, 1, 0, 0, 0, 1, 0x01, 0x02, 0, 3, 0xff, 0
        ]
    );
    assert_eq!(read_blob(ByteOrder::Little, &little), Ok((1, 1, vec![0x0102, 3, 0xff00])));
    assert_eq!(read_blob(ByteOrder::Big, &big), Ok((1, 1, vec![0x0102, 3, 0xff00])));
    assert_eq!(read_blob(ByteOrder::Big, &little), Err(BlobError::BadMagic));
    assert_eq!(read_blob(ByteOrder::Little, &big), Err(BlobError::BadMagic));
}

#[test]
fn the_cache_keeps_to_the_machine_order() {
    let expected = if 1u16.to_ne_bytes()[0] == 1 { ByteOrder::Little } else { ByteOrder::Big };
    assert_eq!(FrameCache::new().order(), expected);
}

#[test]
fn damaged_blobs_are_refused() {
    let mut blob = write_blob(ByteOrder::Little, 1, 1, &[1, 2, 3]);
    blob.pop();
    let err = read_blob(ByteOrder::Little, &blob).unwrap_err();
    assert_eq!(err, BlobError::PayloadLength { len: 5, expected: 6, width: 1, height: 1 });
    assert_eq!(
        err.message("f.bin"),
        "frame cache blob f.bin payload is 5 bytes, expected 6 for 1x1"
    );
    let mut blob = write_blob(ByteOrder::Little, 1, 1, &[1, 2, 3]);
    blob[4] = 2;
    let err = read_blob(ByteOrder::Little, &blob).unwrap_err();
    assert_eq!(err, BlobError::UnsupportedVersion { version: 2 });
    assert_eq!(
        err.message("f.bin"),
        "frame cache blob f.bin has unsupported version 2 (expected 1)"
    );
}

#[test]
fn raw_frames_are_decoded_in_order() {
    assert_eq!(raw_frames(&vec![true, false, true]), vec![0, 2]);
    let steps = FrameCache::build(&vec![false, true, false, true]);
    let store = |frame: usize| DecodeStep::Store {
        frame,
        blob_name: format!("rawcache_{frame}.bin"),
    };
    let report = |current: usize| {
        DecodeStep::Report(PipelineProgress::DecodeRaw { current, total: 2 })
    };
    assert_eq!(
        steps,
        vec![
            DecodeStep::Decode { frame: 1 },
            store(1),
            report(1),
            DecodeStep::Decode { frame: 3 },
            store(3),
            report(2),
        ]
    );
}

#[test]
fn a_blob_is_found_under_every_spelling_of_its_path() {
    let mut cache = FrameCache::new();
    cache.record("a//x.nef".to_owned(), "t/1.bin".to_owned());
    let found = |cache: &FrameCache, path: &str| cache.lookup(path).cloned();
    let first = Some("t/1.bin".to_owned());
    assert_eq!(found(&cache, "a/x.nef"), first);
    assert_eq!(found(&cache, "a/./x.nef"), first);
    assert_eq!(found(&cache, "a/x.nef/"), first);
    assert_eq!(found(&cache, "./a/x.nef"), None);
    assert_eq!(found(&cache, "/a/x.nef"), None);
    assert_eq!(found(&cache, "a/../a/x.nef"), None);
    cache.record("a/x.nef".to_owned(), "t/2.bin".to_owned());
    assert_eq!(found(&cache, "a//x.nef"), Some("t/2.bin".to_owned()));
}

#[test]
fn paths_are_compared_by_their_components() {
    assert!(same_path("/a/b", "/a//b/"));
    assert!(same_path("/./a", "/a"));
    assert!(same_path("./.", "."));
    assert!(!same_path("a", "A"));
    assert!(!same_path("", "."));
    assert!(!same_path("a/b", "ab"));
    let sep = std::path::MAIN_SEPARATOR;
    assert_eq!(join("a/b", "c.d"), format!("a/b{sep}c.d"));
    assert_eq!(join("a/", "c.d"), "a/c.d");
    assert_eq!(join("", "c.d"), "c.d");
}

#[test]
fn the_last_recorded_blob_counts() {
    let mut cache = FrameCache::new();
    cache.record("a.nef".to_owned(), "t/1.bin".to_owned());
    cache.record("b.nef".to_owned(), "t/2.bin".to_owned());
    cache.record("a.nef".to_owned(), "t/3.bin".to_owned());
    assert_eq!(cache.lookup("a.nef").map(String::as_str), Some("t/3.bin"));
    assert_eq!(cache.lookup("b.nef").map(String::as_str), Some("t/2.bin"));
    assert_eq!(cache.lookup("c.png"), None);
}

#[test]
fn fusion_modes_are_parsed() {
    assert_eq!(FusionMode::from_str("APEX", false), Ok(FusionMode::Apex));
    assert_eq!(FusionMode::from_str("relief", false), Ok(FusionMode::Relief));
    assert_eq!(FusionMode::from_str("Strata", true), Ok(FusionMode::Strata));
    assert_eq!(FusionMode::from_str("ai", true), Ok(FusionMode::Ai));
    assert_eq!(FusionMode::from_str("nn", true), Ok(FusionMode::Ai));
    let e = FusionMode::from_str("AI", false).unwrap_err();
    assert_eq!(e, SelectError::UnknownMode { mode: "ai".to_owned(), nn: false });
    assert_eq!(e.message(), "unknown fusion mode 'ai'; expected 'apex', 'relief', or 'strata'");
    let e = FusionMode::from_str("Max", true).unwrap_err();
    assert_eq!(
        e.message(),
        "unknown fusion mode 'max'; expected 'apex', 'relief', 'strata', or 'ai'"
    );
}

fn model(name: &str, manifest: ModelManifest) -> ModelEntry {
    ModelEntry { name: name.to_owned(), weights_path: format!("{name}.mpk"), manifest }
}

#[test]
fn models_are_selected_by_kind_and_name() {
    let models = vec![
        model("a", ModelManifest::from_size_align(ModelSize::M)),
        model("f", ModelManifest::from_size(ModelSize::M)),
        model("g", ModelManifest::from_size_batch(ModelSize::M)),
    ];
    assert_eq!(select_fusion_model(&models, None).unwrap().name, "f");
    assert_eq!(select_fusion_model(&models, Some("g")).unwrap().name, "g");
    assert_eq!(select_alignment_model(&models, None).unwrap().name, "a");
    let e = select_fusion_model(&models, Some("a")).unwrap_err();
    assert_eq!(
        e,
        SelectError::ModelNotFound { kind: ModelKind::Fusion, name: "a".to_owned() }
    );
    assert_eq!(e.message(), "fusion AI model 'a' not found");
    let e = select_alignment_model(&models, Some("f")).unwrap_err();
    assert_eq!(e.message(), "alignment AI model 'f' not found");
    let none: Vec<ModelEntry> = Vec::new();
    let e = select_fusion_model(&none, Some("a")).unwrap_err();
    assert_eq!(e, SelectError::NoModels { kind: ModelKind::Fusion });
    assert_eq!(e.message(), "no fusion AI models found in the models/ directory");
    let e = select_alignment_model(&none, None).unwrap_err();
    assert_eq!(e.message(), "no alignment AI models found in the models/ directory");
    let e = select_alignment_model(&none, Some("a")).unwrap_err();
    assert_eq!(e.message(), "alignment AI model 'a' not found");
}

#[test]
fn run_devices_are_selected() {
    let cpu = Backends::built();
    assert_eq!(select_run_device(None, cpu, ModelKind::Fusion), Ok(InferDevice::Cpu));
    let e = select_run_device(Some("gpu"), cpu, ModelKind::Fusion).unwrap_err();
    assert_eq!(e.message(), "GPU requested but built without --features nn-gpu");
    let e = select_run_device(Some("tpu"), cpu, ModelKind::Fusion).unwrap_err();
    assert_eq!(e.message(), "invalid --device 'tpu' (cpu|gpu)");
    let e = select_run_device(Some("tpu"), cpu, ModelKind::Alignment).unwrap_err();
    assert_eq!(e.message(), "invalid alignment device 'tpu' (cpu|gpu)");
    let none = Backends { cpu: false, gpu: false };
    let e = select_run_device(None, none, ModelKind::Fusion).unwrap_err();
    assert_eq!(e, SelectError::Device { kind: ModelKind::Fusion, error: DeviceError::NoBackend });
    assert_eq!(e.message(), "no inference backend built");
    let e = select_run_device(Some("cpu"), none, ModelKind::Fusion).unwrap_err();
    assert_eq!(e.message(), "CPU backend not built");
}

fn paths(list: &[&str]) -> Vec<String> {
    list.iter().map(|p| (*p).to_owned()).collect()
}

#[test]
fn frames_are_reversed_before_they_are_thinned() {
    let all = paths(&["0", "1", "2", "3", "4"]);
    assert_eq!(select_frames(&all, false, 1), all);
    assert_eq!(select_frames(&all, false, 0), all);
    assert_eq!(select_frames(&all, false, 2), paths(&["0", "2", "4"]));
    assert_eq!(select_frames(&all, true, 2), paths(&["4", "2", "0"]));
    assert_eq!(select_frames(&all, true, 3), paths(&["4", "1"]));
    assert_eq!(select_frames(&all, false, 9), paths(&["0"]));
    assert_eq!(select_frames(&Vec::new(), true, 2), Vec::<String>::new());
}

#[test]
fn the_alignment_pass_stores_every_frame() {
    let setup = AlignSetup { n_frames: 2, whole_image: false, seeding: true, neural: false };
    assert_eq!(
        alignment_schedule(setup),
        vec![
            AlignStep::Report(PipelineProgress::AlignStart { total: 2 }),
            AlignStep::CommitTiles { frame: 0 },
            AlignStep::Report(PipelineProgress::AlignFrame { current: 1, total: 2 }),
            AlignStep::ReloadReference,
            AlignStep::CoarseSeeds,
            AlignStep::AlignFrame { frame: 1 },
            AlignStep::CommitTiles { frame: 1 },
            AlignStep::FoldCoverage { frame: 1 },
            AlignStep::Report(PipelineProgress::AlignFrame { current: 2, total: 2 }),
            AlignStep::Report(PipelineProgress::AlignDone),
        ]
    );
    let setup = AlignSetup { n_frames: 1, whole_image: true, seeding: true, neural: true };
    assert_eq!(
        alignment_schedule(setup),
        vec![
            AlignStep::Report(PipelineProgress::AlignStart { total: 1 }),
            AlignStep::SeedAccumulator,
            AlignStep::Report(PipelineProgress::AlignFrame { current: 1, total: 1 }),
            AlignStep::Report(PipelineProgress::AlignDone),
        ]
    );
}

#[test]
fn frames_are_aligned_from_their_best_seed() {
    let coarse = vec![true, false];
    assert_eq!(
        frame_alignment(1, None, true, &coarse),
        FrameAlignment::Classical { seed: SeedSource::Coarse }
    );
    assert_eq!(
        frame_alignment(2, None, true, &coarse),
        FrameAlignment::Classical { seed: SeedSource::Previous }
    );
    assert_eq!(
        frame_alignment(3, None, true, &coarse),
        FrameAlignment::Classical { seed: SeedSource::Previous }
    );
    assert_eq!(
        frame_alignment(1, Some(2), true, &coarse),
        FrameAlignment::NeuralSeeded { matrix: NeuralMatrix::Predicted }
    );
    assert_eq!(
        frame_alignment(2, Some(2), false, &coarse),
        FrameAlignment::NeuralDirect { matrix: NeuralMatrix::Identity }
    );
}

#[test]
fn a_crop_is_resolved_where_frames_moved() {
    assert!(resolves_crop(true, 2, AlignmentMode::Classical));
    assert!(!resolves_crop(true, 1, AlignmentMode::Classical));
    assert!(!resolves_crop(true, 2, AlignmentMode::Off));
    assert!(!resolves_crop(false, 2, AlignmentMode::Neural));
}

/// Two tiles side by side over an image of 20 x 10, with an apron of 2.
fn sites() -> Vec<TileSite> {
    vec![
        TileSite {
            interior: TileCoordinate { start_x: 0, start_y: 0, width: 10, height: 10 },
            padded: TileCoordinate { start_x: 0, start_y: 0, width: 12, height: 10 },
            pad_off: (0, 0),
        },
        TileSite {
            interior: TileCoordinate { start_x: 10, start_y: 0, width: 10, height: 10 },
            padded: TileCoordinate { start_x: 8, start_y: 0, width: 12, height: 10 },
            pad_off: (2, 0),
        },
    ]
}

#[test]
fn tiles_outside_the_crop_are_skipped() {
    let all = sites();
    assert!(all.iter().all(TileSite::is_wf));
    assert_eq!(fused_tiles(&all, None).len(), 2);
    let crop = CropRect { x: 12, y: 1, width: 5, height: 4 };
    let paste =
        TilePaste { tile: 1, pad_off: (4, 1), dest: (0, 0), width: 5, height: 4 };
    assert_eq!(fused_tiles(&all, Some(crop)), vec![paste]);
    assert_eq!(tile_paste(&all[0], 0, Some(crop)), None);
    let wide = TileSite { pad_off: (3, 0), ..all[1] };
    assert!(!wide.is_wf());
}

#[test]
fn every_kept_pixel_is_written_once() {
    let all = sites();
    for crop in [None, Some(CropRect { x: 7, y: 2, width: 9, height: 6 })] {
        let (w, h, cx, cy) = match crop {
            Some(c) => (c.width, c.height, c.x, c.y),
            None => (20, 10, 0, 0),
        };
        let mut out = vec![0u8; h * w * 3];
        for p in fused_tiles(&all, crop) {
            let site = all[p.tile];
            let (tw, th) = (site.padded.width, site.padded.height);
            let mut tile = Vec::new();
            for y in 0..th {
                for x in 0..tw {
                    let v = ((site.padded.start_y + y) * 20 + site.padded.start_x + x) as u8 + 1;
                    tile.extend([v, v, v]);
                }
            }
            paste_tile_to_rgb8(&mut out, w, h, &tile, tw, th, p);
        }
        for y in 0..h {
            for x in 0..w {
                let want = ((cy + y) * 20 + cx + x) as u8 + 1;
                assert_eq!(out[(y * w + x) * 3 + 1], want);
            }
        }
    }
}

#[test]
fn the_fusion_pass_reports_its_tiles() {
    let all = sites();
    let steps = fusion_schedule(FusionMode::Relief, &all, None, 20, 10);
    assert_eq!(steps.len(), 7);
    assert_eq!(steps[0], FuseStep::ResolveThreshold);
    assert_eq!(steps[1], FuseStep::Report(PipelineProgress::FuseStart { total: 2 }));
    assert_eq!(steps[5], FuseStep::Report(PipelineProgress::FuseTile { current: 2, total: 2 }));
    assert_eq!(steps[6], FuseStep::Report(PipelineProgress::FuseDone));
    let whole = fusion_schedule(FusionMode::Apex, &all, None, 20, 10);
    let paste = TilePaste { tile: 0, pad_off: (0, 0), dest: (0, 0), width: 20, height: 10 };
    assert_eq!(
        whole,
        vec![FuseStep::FuseWhole { paste }, FuseStep::Report(PipelineProgress::FuseDone)]
    );
    let ai = fusion_schedule(FusionMode::Ai, &all, None, 20, 10);
    assert_eq!(ai[0], FuseStep::LoadModel);
    assert_eq!(fusion_schedule(FusionMode::Strata, &all, None, 20, 10).len(), 6);
    let setup = align_setup(FusionMode::Apex, 3, AlignmentMode::Neural, true, false, true);
    assert_eq!(
        setup,
        AlignSetup { n_frames: 3, whole_image: true, seeding: false, neural: true }
    );
}

#[test]
fn threshold_samples_are_spread_over_the_image() {
    assert_eq!(sample_stride(0, 0), 1);
    assert_eq!(sample_stride(2000, 2000), 1);
    assert_eq!(sample_stride(4000, 3000), 3);
    let grid: Vec<u8> = (0..20).collect();
    let mut sample: Vec<u8> = vec![99];
    sample_region(&mut sample, &grid, 5, 1, 1, 3, 2, 1);
    assert_eq!(sample, vec![99, 6, 7, 8, 11, 12, 13]);
    let mut sample: Vec<u8> = Vec::new();
    sample_region(&mut sample, &grid, 5, 1, 1, 3, 2, 4);
    assert_eq!(sample, vec![6, 12]);
}

#[test]
fn the_threshold_is_an_order_statistic() {
    let bits = |v: f32| v.to_bits();
    let sample = vec![bits(0.5), bits(0.0), bits(-1.0), bits(0.25), bits(2.0), f32::NAN.to_bits()];
    let positive_only = threshold_population(&sample, bits(0.5)).unwrap();
    assert_eq!(positive_only, vec![bits(0.5), bits(0.25), bits(2.0)]);
    assert_eq!(f32::from_bits(threshold_of(&positive_only, 0)), 0.25);
    assert_eq!(f32::from_bits(threshold_of(&positive_only, 1)), 0.5);
    assert_eq!(f32::from_bits(threshold_of(&positive_only, 7)), 2.0);
    assert_eq!(threshold_population(&sample, bits(0.0)), None);
    assert_eq!(threshold_population(&sample, bits(-0.5)), None);
    assert_eq!(threshold_population(&vec![bits(-0.5)], bits(0.5)), None);
    assert_eq!(threshold_population(&Vec::new(), bits(0.5)), None);
}

#[test]
fn bit_patterns_order_as_floats() {
    let values = [f32::NEG_INFINITY, -2.0, -0.0, 0.0, 1e-40, 0.5, f32::INFINITY, f32::NAN];
    for a in values {
        assert_eq!(positive(a.to_bits()), a > 0.0);
        for b in values {
            assert_eq!(greater(a.to_bits(), b.to_bits()), a > b, "{a} > {b}");
        }
    }
    assert_eq!(kth_smallest(&vec![5, 1, 5, 3], 2), 5);
}

#[test]
fn output_formats_are_told_by_extension() {
    assert!(supports_16bit_output("out/a.PNG"));
    assert!(supports_16bit_output("a.tif"));
    assert!(supports_16bit_output("a.b.tiff"));
    assert!(!supports_16bit_output("a.jpg"));
    assert!(!supports_16bit_output("png"));
    assert!(supports_16bit_output("C:\\out\\a.PNG"));
    assert!(is_jpeg_output("a.JPEG"));
    assert!(is_jpeg_output("a.jpg"));
    assert!(!is_jpeg_output("a.png"));
    assert!(uses_16bit("a.png", 16));
    assert!(!uses_16bit("a.png", 8));
    assert!(!uses_16bit("a.jpg", 16));
    assert_eq!((jpeg_quality(0), jpeg_quality(90), jpeg_quality(500)), (1, 90, 100));
}

#[test]
fn tiles_are_pasted_in_sixteen_bits() {
    let mut out = vec![7u16; 2 * 2 * 3];
    let tile: Vec<u16> = (0..12).collect();
    let p = TilePaste { tile: 0, pad_off: (1, 0), dest: (0, 1), width: 1, height: 1 };
    paste_tile_to_rgb16(&mut out, 2, 2, &tile, 2, 2, p);
    assert_eq!(out, vec![7, 7, 7, 7, 7, 7, 3, 4, 5, 7, 7, 7]);
}

#[test]
fn whole_images_are_cropped_when_they_are_saved() {
    let crop = CropRect { x: 1, y: 0, width: 2, height: 2 };
    assert_eq!(output_size(FusionMode::Apex, 4, 3, Some(crop)), (4, 3));
    assert_eq!(output_size(FusionMode::Relief, 4, 3, Some(crop)), (2, 2));
    assert_eq!(output_size(FusionMode::Relief, 4, 3, None), (4, 3));
    assert_eq!(
        save_plan(FusionMode::Apex, 4, 3, Some(crop), true, false),
        SavePlan { crop: Some(crop), width: 2, height: 2, resize: None }
    );
    assert_eq!(
        save_plan(FusionMode::Strata, 4, 3, Some(crop), true, true),
        SavePlan { crop: None, width: 2, height: 2, resize: Some((4, 3)) }
    );
    assert_eq!(
        save_plan(FusionMode::Apex, 4, 3, None, true, true),
        SavePlan { crop: None, width: 4, height: 3, resize: None }
    );
}

#[test]
fn saved_images_are_cut_out() {
    let buf: Vec<u8> = (0..18).collect();
    let crop = CropRect { x: 1, y: 0, width: 2, height: 2 };
    let plan = SavePlan { crop: Some(crop), width: 2, height: 2, resize: None };
    assert_eq!(
        finish_rgb8(buf.clone(), 3, 2, plan),
        (2, 2, vec![3, 4, 5, 6, 7, 8, 12, 13, 14, 15, 16, 17])
    );
    let plan = SavePlan { crop: None, width: 3, height: 2, resize: None };
    assert_eq!(finish_rgb8(buf.clone(), 3, 2, plan), (3, 2, buf));
}

#[test]
fn the_cut_out_part_is_what_is_resampled() {
    // Two flat halves: what is kept of the buffer decides the colour.
    let buf: Vec<u8> = [[10u8; 6], [90u8; 6], [10u8; 6], [90u8; 6]].concat();
    for (x, v) in [(0, 10u8), (2, 90)] {
        let crop = CropRect { x, y: 0, width: 2, height: 2 };
        let plan = SavePlan { crop: Some(crop), width: 2, height: 2, resize: Some((4, 2)) };
        let (w, h, out) = finish_rgb8(buf.clone(), 4, 2, plan);
        assert_eq!((w, h, out), (4, 2, vec![v; 24]));
        let deep: Vec<u16> = buf.iter().map(|s| u16::from(*s)).collect();
        let (w, h, out) = finish_rgb16(deep, 4, 2, plan);
        assert_eq!((w, h, out), (4, 2, vec![u16::from(v); 24]));
    }
}

#[test]
fn saved_images_are_resampled() {
    let flat = vec![200u8; 2 * 2 * 3];
    let plan = SavePlan { crop: None, width: 2, height: 2, resize: Some((5, 3)) };
    let (w, h, out) = finish_rgb8(flat, 2, 2, plan);
    assert_eq!((w, h, out.len()), (5, 3, 45));
    assert!(out.iter().all(|v| *v == 200), "a flat image stays flat: {out:?}");
    let flat = vec![40_000u16; 2 * 2 * 3];
    let (w, h, out) = finish_rgb16(flat, 2, 2, plan);
    assert_eq!((w, h, out.len()), (5, 3, 45));
    assert!(out.iter().all(|v| v.abs_diff(40_000) <= 1), "a flat image stays flat: {out:?}");
    let same = SavePlan { crop: None, width: 2, height: 2, resize: Some((2, 2)) };
    let pixels: Vec<u16> = (0..12).map(|i| i * 5000).collect();
    assert_eq!(finish_rgb16(pixels.clone(), 2, 2, same), (2, 2, pixels));
    let none = SavePlan { crop: None, width: 0, height: 2, resize: Some((1, 1)) };
    assert_eq!(finish_rgb8(Vec::new(), 0, 2, none), (1, 1, vec![0, 0, 0]));
}

fn item(path: &str, is_file: bool, is_raw: bool) -> DirItem {
    DirItem { path: path.to_owned(), is_file, is_raw }
}

#[test]
fn image_folders_are_listed() {
    let entries = vec![
        item("d/b.JPG", true, false),
        item("d/a.png", true, false),
        item("d/c.nef", true, true),
        item("d/d.nef", true, false),
        item("d/e.png", false, false),
        item("d/f", true, true),
    ];
    assert_eq!(
        collect_image_paths("d", entries),
        Ok(paths(&["d/a.png", "d/b.JPG", "d/c.nef"]))
    );
    let e = collect_image_paths("d", vec![item("d/x.txt", true, false)]).unwrap_err();
    assert_eq!(e.message(), "no images found in 'd'");
}

fn settings(mode: &str, output: &str) -> RunSettings {
    RunSettings {
        mode: mode.to_owned(),
        output_file: output.to_owned(),
        sort_reverse: true,
        stack_every_nth: 2,
        alignment: AlignmentMode::Neural,
        akaze_seeding: true,
        crop_to_common_area: true,
        resize_cropped_to_original: true,
        bit_depth: 16,
        jpeg_quality: 0,
    }
}

#[test]
fn runs_are_planned() {
    let built = BuiltParts { akaze: true, nn: true };
    let all = paths(&["a", "b", "c"]);
    let plan = plan_run(&all, &settings("AI", "o.png"), built).unwrap();
    assert_eq!(plan.mode, FusionMode::Ai);
    assert_eq!(plan.frames, paths(&["c", "a"]));
    assert_eq!(
        plan.setup,
        AlignSetup { n_frames: 2, whole_image: false, seeding: true, neural: true }
    );
    assert!(plan.resolves_crop);
    let bare = BuiltParts { akaze: false, nn: false };
    let plan = plan_run(&all, &settings("apex", "o.png"), bare).unwrap();
    assert_eq!(
        plan.setup,
        AlignSetup { n_frames: 2, whole_image: true, seeding: false, neural: false }
    );
    let e = plan_run(&all, &settings("AI", "o.png"), bare).unwrap_err();
    assert_eq!(e, SelectError::UnknownMode { mode: "ai".to_owned(), nn: false });
}

#[test]
fn outputs_are_planned() {
    let crop = CropRect { x: 1, y: 1, width: 6, height: 5 };
    let plan = plan_output(FusionMode::Relief, &settings("relief", "o.tif"), 8, 7, Some(crop));
    assert_eq!(plan.buffer, (6, 5));
    assert_eq!(plan.encoding, Encoding::Deep);
    assert_eq!(plan.save.resize, Some((8, 7)));
    let plan = plan_output(FusionMode::Apex, &settings("apex", "o.jpg"), 8, 7, Some(crop));
    assert_eq!(plan.buffer, (8, 7));
    assert_eq!(plan.encoding, Encoding::Jpeg { quality: 1 });
    assert_eq!(plan.save.crop, Some(crop));
    let mut shallow = settings("apex", "o.png");
    shallow.bit_depth = 8;
    let plan = plan_output(FusionMode::Apex, &shallow, 8, 7, None);
    assert_eq!(plan.encoding, Encoding::Shallow);
    assert_eq!(plan.save.resize, None);
}

#[test]
fn names_are_split_and_ordered() {
    assert_eq!(extension("a/b.tar.GZ"), Some("GZ".to_owned()));
    assert_eq!(folded_extension("a/b.tar.GZ"), Some("gz".to_owned()));
    assert_eq!(extension("a.d/b"), None);
    assert_eq!(extension("a/.hidden"), None);
    assert_eq!(extension("a/.."), None);
    assert_eq!(extension("a/b."), Some(String::new()));
    assert_eq!(stem("a/b.tar.GZ"), Some("b.tar".to_owned()));
    assert_eq!(stem("a/.."), None);
    assert_eq!(
        sort_by_name(paths(&["b", "a", "\u{e9}", "B", "ab"])),
        paths(&["B", "a", "ab", "b", "\u{e9}"])
    );
    assert!(comes_before("a", "ab"));
    assert!(!comes_before("b", "ab"));
}

#[test]
fn numbers_are_written_and_read() {
    assert_eq!(decimal(0), "0");
    assert_eq!(decimal(u128::MAX), u128::MAX.to_string());
    assert_eq!((decimal3(5), decimal3(42), decimal3(1000)), paths3("005", "042", "1000"));
    for text in ["0", "007", "+12", "18446744073709551615"] {
        assert_eq!(parse_usize(text), text.parse().ok());
    }
    for text in ["", "+", "-0", "1 ", "1_0", "\u{661}", "99999999999999999999"] {
        assert_eq!(parse_usize(text), None);
        assert!(text.parse::<usize>().is_err());
    }
}

fn paths3(a: &str, b: &str, c: &str) -> (String, String, String) {
    (a.to_owned(), b.to_owned(), c.to_owned())
}
