//! Model discovery and the choice of a network and a device.

use stacker::discovery::{
    default_architecture, discover_default_models, discover_models, model_stem, DiscoveryError,
    FoundModel, ModelEntry, ModelManifest, BATCHALIGN_V2, BATCHMERGE_V2, FOCUSMERGE_V1,
    FUSIONALIGN_V1,
};
use stacker::model::{
    BatchAlignNetConfig, BatchMergeNetConfig, FocusMergeNetConfig, FusionAlignNetConfig, ModelSize,
};
use stacker::runtime::{
    available_devices, default_device, gpu_available, load_align_net, load_fusion_net,
    select_device, AlignNetKind, Backends, DeviceError, FusionStrategy, InferDevice,
};

fn entry(name: &str, manifest: ModelManifest) -> ModelEntry {
    ModelEntry {
        name: name.to_owned(),
        weights_path: format!("models/{name}.mpk"),
        manifest,
    }
}

fn found(name: &str, manifest: Option<ModelManifest>) -> FoundModel {
    FoundModel {
        name: name.to_owned(),
        weights_path: format!("models/{name}.mpk"),
        manifest,
    }
}

/// A manifest that names a size and a tag, and leaves the rest to the preset.
fn bare(architecture: &str, size: ModelSize) -> ModelManifest {
    ModelManifest {
        architecture: architecture.to_owned(),
        size,
        width: None,
        depth: None,
        norm_groups: None,
        refine_scale: None,
        corr_radius: None,
        description: String::new(),
    }
}

fn expected_of<T>(r: Result<T, DiscoveryError>) -> &'static str {
    match r {
        Ok(_) => panic!("the loader accepted the entry"),
        Err(DiscoveryError::ArchitectureMismatch { expected, .. }) => expected,
    }
}

#[test]
fn discover_missing_dir_is_empty() {
    assert!(discover_models(Vec::new()).is_empty());
}

#[test]
fn discover_and_load_roundtrip() {
    let files = vec![
        found("tiny", Some(bare(&default_architecture(), ModelSize::Xs))),
        found("orphan", None),
    ];
    let models = discover_models(files);
    assert_eq!(models.len(), 1, "orphan .mpk without manifest should be skipped");
    assert_eq!(models[0].name, "tiny");
    assert_eq!(models[0].manifest.size, ModelSize::Xs);
    let config = models[0].load().unwrap();
    assert_eq!(config, FocusMergeNetConfig::from_size(ModelSize::Xs));
}

#[test]
fn manifest_without_architecture_field_defaults_to_focusmerge_v1() {
    let manifest = bare(&default_architecture(), ModelSize::M);
    assert_eq!(manifest.architecture, FOCUSMERGE_V1);
    assert_eq!(manifest.size, ModelSize::M);
}

#[test]
fn from_size_stamps_focusmerge_v1_architecture() {
    let manifest = ModelManifest::from_size(ModelSize::S);
    assert_eq!(manifest.architecture, FOCUSMERGE_V1);
}

#[test]
fn discover_models_skips_unknown_architecture() {
    let models = discover_models(vec![
        found("known", Some(bare("focusmerge-v1", ModelSize::Xs))),
        found("foreign", Some(bare("other/v2", ModelSize::Xs))),
    ]);
    assert_eq!(models.len(), 1, "unknown-architecture manifest should be skipped, not loaded");
    assert_eq!(models[0].name, "known");
    assert_eq!(models[0].manifest.architecture, FOCUSMERGE_V1);
}

#[test]
fn batchalign_entry_rejected_by_load_and_load_batch() {
    let e = entry("align_entry", ModelManifest::from_size_align(ModelSize::Xs));
    assert_eq!(expected_of(e.load()), FOCUSMERGE_V1);
    assert_eq!(expected_of(e.load_batch()), BATCHMERGE_V2);
    assert_eq!(e.load_align().unwrap(), BatchAlignNetConfig::from_size(ModelSize::Xs));
}

#[test]
fn focusmerge_entry_rejected_by_load_align() {
    let e = entry("fm_entry", ModelManifest::from_size(ModelSize::Xs));
    assert_eq!(expected_of(e.load_align()), BATCHALIGN_V2);
}

#[test]
fn batchmerge_entry_round_trips_through_load_batch() {
    let e = entry("bm_entry", ModelManifest::from_size_batch(ModelSize::Xs));
    assert_eq!(e.load_batch().unwrap(), BatchMergeNetConfig::from_size(ModelSize::Xs));
}

#[test]
fn discover_models_returns_all_three_known_architectures() {
    let models = discover_models(vec![
        found("fm", Some(ModelManifest::from_size(ModelSize::Xs))),
        found("bm", Some(ModelManifest::from_size_batch(ModelSize::Xs))),
        found("ba", Some(ModelManifest::from_size_align(ModelSize::Xs))),
        found("unknown", Some(bare("other/v2", ModelSize::Xs))),
    ]);
    assert_eq!(models.len(), 3, "expected exactly the 3 known-architecture entries");
    let tags: Vec<&str> = models.iter().map(|e| e.manifest.architecture.as_str()).collect();
    assert!(tags.contains(&FOCUSMERGE_V1));
    assert!(tags.contains(&BATCHMERGE_V2));
    assert!(tags.contains(&BATCHALIGN_V2));
}

#[test]
fn discover_models_skips_unrecognised_batchmerge_style_tag() {
    let models = discover_models(vec![found("old_batch", Some(bare("batchmerge-v1", ModelSize::Xs)))]);
    assert!(models.is_empty());
}

#[test]
fn from_size_batch_stamps_batchmerge_v2_architecture() {
    let manifest = ModelManifest::from_size_batch(ModelSize::S);
    assert_eq!(manifest.architecture, BATCHMERGE_V2);
}

#[test]
fn from_size_fusion_align_stamps_fusionalign_v1_architecture() {
    let manifest = ModelManifest::from_size_fusion_align(ModelSize::S);
    assert_eq!(manifest.architecture, FUSIONALIGN_V1);
}

#[test]
fn fusionalign_entry_round_trips_and_is_rejected_by_other_loaders() {
    let e = entry("fusion_align_entry", ModelManifest::from_size_fusion_align(ModelSize::Xs));
    assert_eq!(e.load_fusion_align().unwrap(), FusionAlignNetConfig::from_size(ModelSize::Xs));
    assert_eq!(expected_of(e.load()), FOCUSMERGE_V1);
    assert_eq!(expected_of(e.load_batch()), BATCHMERGE_V2);
    assert_eq!(expected_of(e.load_align()), BATCHALIGN_V2);
}

#[test]
fn batchalign_entry_rejected_by_load_fusion_align() {
    let e = entry("align_entry", ModelManifest::from_size_align(ModelSize::Xs));
    assert_eq!(expected_of(e.load_fusion_align()), FUSIONALIGN_V1);
}

#[test]
fn discover_models_returns_all_four_known_architectures() {
    let models = discover_models(vec![
        found("fm", Some(ModelManifest::from_size(ModelSize::Xs))),
        found("bm", Some(ModelManifest::from_size_batch(ModelSize::Xs))),
        found("ba", Some(ModelManifest::from_size_align(ModelSize::Xs))),
        found("fa", Some(ModelManifest::from_size_fusion_align(ModelSize::Xs))),
        found("unknown", Some(bare("other/v2", ModelSize::Xs))),
    ]);
    assert_eq!(models.len(), 4, "expected exactly the 4 known-architecture entries");
    let tags: Vec<&str> = models.iter().map(|e| e.manifest.architecture.as_str()).collect();
    assert!(tags.contains(&FOCUSMERGE_V1));
    assert!(tags.contains(&BATCHMERGE_V2));
    assert!(tags.contains(&BATCHALIGN_V2));
    assert!(tags.contains(&FUSIONALIGN_V1));
}

#[test]
fn fusionalign_entry_is_pairwise_alignment_not_batch_or_fusion() {
    let e = entry("fusion_align_entry", ModelManifest::from_size_fusion_align(ModelSize::Xs));
    assert!(e.is_alignment());
    assert!(e.is_pairwise_alignment());
    assert!(!e.is_batch_alignment());
    assert!(!e.is_fusion());
}

#[test]
fn a_mismatch_names_the_tag_and_the_weights() {
    let e = entry("x", bare("other/v2", ModelSize::M));
    assert_eq!(
        e.load(),
        Err(DiscoveryError::ArchitectureMismatch {
            expected: FOCUSMERGE_V1,
            found: "other/v2".to_owned(),
            path: "models/x.mpk".to_owned(),
        })
    );
}

#[test]
fn manifest_overrides_take_the_place_of_the_preset() {
    let mut m = bare(BATCHALIGN_V2, ModelSize::M);
    m.width = Some(48);
    m.corr_radius = Some(7);
    let config = m.to_align_config();
    assert_eq!((config.width, config.depth, config.norm_groups, config.corr_radius), (48, 2, 8, 7));
    m.refine_scale = Some(0.25f64.to_bits());
    assert_eq!(f64::from_bits(m.to_config().refine_scale), 0.25);
    assert_eq!(f64::from_bits(m.to_batch_config().refine_scale), 0.25);
    assert_eq!(m.to_fusion_align_config().corr_radius, 7);
}

#[test]
fn manifests_record_the_exact_geometry() {
    let m = ModelManifest::from_size_align(ModelSize::L);
    assert_eq!(
        (m.width, m.depth, m.norm_groups, m.refine_scale, m.corr_radius),
        (Some(96), Some(2), Some(8), None, Some(4))
    );
    let m = ModelManifest::from_size(ModelSize::L);
    assert_eq!((m.width, m.depth, m.corr_radius), (Some(48), Some(6), None));
    assert_eq!(m.refine_scale, Some(0.1f64.to_bits()));
    assert_eq!(m.clone(), m);
}

#[test]
fn models_are_listed_by_name() {
    let models = discover_models(vec![
        found("b", Some(ModelManifest::from_size(ModelSize::M))),
        found("a10", Some(ModelManifest::from_size(ModelSize::M))),
        found("a2", Some(ModelManifest::from_size(ModelSize::M))),
    ]);
    let names: Vec<&str> = models.iter().map(|e| e.name.as_str()).collect();
    assert_eq!(names, vec!["a10", "a2", "b"]);
}

#[test]
fn the_first_directory_wins_a_shared_name() {
    let first = discover_models(vec![found("m", Some(ModelManifest::from_size(ModelSize::Xs)))]);
    let second = discover_models(vec![
        found("m", Some(ModelManifest::from_size(ModelSize::Xl))),
        found("a", Some(ModelManifest::from_size(ModelSize::S))),
    ]);
    let all = discover_default_models(vec![first, second]);
    let names: Vec<(&str, ModelSize)> =
        all.iter().map(|e| (e.name.as_str(), e.manifest.size)).collect();
    assert_eq!(names, vec![("a", ModelSize::S), ("m", ModelSize::Xs)]);
}

#[test]
fn weights_files_are_told_by_their_extension() {
    assert_eq!(model_stem("models/sharp.v2.mpk"), Some("sharp.v2".to_owned()));
    assert_eq!(model_stem("models/sharp.json"), None);
    assert_eq!(model_stem("models/.mpk"), None);
    assert_eq!(model_stem("models/sharp.MPK"), None);
    assert_eq!(model_stem("models/sharp"), None);
}

#[test]
fn entries_are_run_as_their_own_network() {
    let batch = entry("b", ModelManifest::from_size_batch(ModelSize::M));
    assert_eq!(load_fusion_net(&batch).ok().unwrap().strategy(), FusionStrategy::Batch);
    let focus = entry("f", ModelManifest::from_size(ModelSize::M));
    assert_eq!(load_fusion_net(&focus).ok().unwrap().strategy(), FusionStrategy::Pairwise);
    let pair = entry("p", ModelManifest::from_size_fusion_align(ModelSize::M));
    assert_eq!(load_align_net(&pair).ok().unwrap().kind(), AlignNetKind::Fusion);
    let whole = entry("w", ModelManifest::from_size_align(ModelSize::M));
    assert_eq!(load_align_net(&whole).ok().unwrap().kind(), AlignNetKind::Batch);
    assert_eq!(load_fusion_net(&pair).err().map(|e| matches!(
        e,
        DiscoveryError::ArchitectureMismatch { expected: FOCUSMERGE_V1, .. }
    )), Some(true));
    assert_eq!(load_align_net(&focus).err().map(|e| matches!(
        e,
        DiscoveryError::ArchitectureMismatch { expected: BATCHALIGN_V2, .. }
    )), Some(true));
}

#[test]
fn devices_of_this_build() {
    assert!(!gpu_available());
    assert_eq!(available_devices(), vec![InferDevice::Cpu]);
    assert_eq!(default_device(), Some(InferDevice::Cpu));
    assert_eq!(InferDevice::Cpu.label(), "CPU");
    assert_eq!(InferDevice::Gpu.label(), "GPU");
    let both = Backends { cpu: true, gpu: true };
    assert_eq!(both.devices(), vec![InferDevice::Gpu, InferDevice::Cpu]);
}

#[test]
fn device_requests_are_resolved() {
    let cpu = Backends { cpu: true, gpu: false };
    let gpu = Backends { cpu: false, gpu: true };
    let none = Backends { cpu: false, gpu: false };
    assert_eq!(select_device(None, cpu), Ok(InferDevice::Cpu));
    assert_eq!(select_device(Some("gpu"), gpu), Ok(InferDevice::Gpu));
    assert_eq!(select_device(None, none), Err(DeviceError::NoBackend));
    assert_eq!(select_device(Some("cpu"), gpu), Err(DeviceError::CpuNotBuilt));
    assert_eq!(select_device(Some("gpu"), cpu), Err(DeviceError::GpuNotBuilt));
    assert_eq!(
        select_device(Some("CPU"), cpu),
        Err(DeviceError::UnknownDevice { name: "CPU".to_owned() })
    );
}
