//! The training command line, schedules, checkpoints and runs.

use stacker::data::crop::CropParams;
use stacker::data::scene::{
    AlignSceneMeta, AlignSequence, FolderItem, RealStackScene, RolloutSequence, SceneMeta,
};
use stacker::discovery::{ModelManifest, BATCHALIGN_V2, BATCHMERGE_V2, FUSIONALIGN_V1};
use stacker::model::ModelSize;
use stacker::train::args::{
    parse, validate_resume_state, value_after, ArgError, Parsed, ResumeError, Settings,
    TrainState, TrainStrategy,
};
use stacker::train::checkpoint::{
    align_config, epoch_stem, final_stem, fusion_align_config, latest_stem, optim_stem,
    training_manifest,
};
use stacker::train::rng::{random_crop_dims, Rng};
use stacker::train::run::{finetune_start, Action, Stage, TrainPlan, Trainer};
use stacker::train::scenes::{
    discover_scenes, pair_examples, usable_real_scenes, NothingToTrain,
};
use stacker::train::schedule::{
    lr_phase, rollout_feeds, sampling_phase, warmup_steps, Feed, LrPhase, SamplingPhase,
};

#[test]
fn train_strategy_parse_round_trips() {
    for (s, expected) in [
        ("pairwise", TrainStrategy::Pairwise),
        ("batch", TrainStrategy::Batch),
        ("align", TrainStrategy::Align),
        ("fusion-align", TrainStrategy::FusionAlign),
    ] {
        let parsed = TrainStrategy::parse(s).unwrap_or_else(|| panic!("failed to parse {s}"));
        assert_eq!(parsed, expected);
        assert_eq!(parsed.as_str(), s);
    }
    assert_eq!(TrainStrategy::parse("nonsense"), None);
}

#[test]
fn train_strategy_stem_prefix_matches_checkpoint_naming_table() {
    assert_eq!(TrainStrategy::Pairwise.stem_prefix(), "focusmerge");
    assert_eq!(TrainStrategy::Batch.stem_prefix(), "batchmerge");
    assert_eq!(TrainStrategy::Align.stem_prefix(), "batchalign");
    assert_eq!(TrainStrategy::FusionAlign.stem_prefix(), "fusionalign");
}

#[test]
fn random_crop_dims_fits_within_bounds() {
    let mut rng = Rng::new(1234);
    for _ in 0..50 {
        let cp = random_crop_dims(100, 80, 32, &mut rng);
        assert_eq!(cp.size, 32, "crop size should equal max_size when it fits");
        assert!(cp.top + cp.size <= 80, "crop exceeds height: {cp:?}");
        assert!(cp.left + cp.size <= 100, "crop exceeds width: {cp:?}");
    }
}

#[test]
fn random_crop_dims_clamps_to_smaller_dimension() {
    let mut rng = Rng::new(5678);
    let cp = random_crop_dims(20, 15, 256, &mut rng);
    assert_eq!(cp.size, 15, "crop should clamp to min(w, h, max_size)");
    assert_eq!(cp.top, 0, "single valid crop position (size == h) must be top=0");
    assert!(cp.left + cp.size <= 20);
}

/// The learning rate that a phase stands for.
fn rate(base: f64, step: usize, total: usize, warmup: usize) -> f64 {
    match lr_phase(step, total, warmup) {
        LrPhase::Base => base,
        LrPhase::Warmup { num, den } => base * num as f64 / den as f64,
        LrPhase::Cosine { num, den } => {
            base * 0.5 * (1.0 + (std::f64::consts::PI * (num as f64 / den as f64)).cos())
        }
    }
}

#[test]
fn cosine_lr_warmup_and_decay() {
    let base = 1.0_f64;
    let total = 100;
    let warmup = 10;

    let lr_early = rate(base, 0, total, warmup);
    let lr_mid_warmup = rate(base, 5, total, warmup);
    assert!(lr_early < lr_mid_warmup);
    assert!(lr_mid_warmup <= base);

    let lr_mid = rate(base, 55, total, warmup);
    let lr_end = rate(base, 100, total, warmup);
    assert!(lr_mid < base);
    assert!(lr_end < lr_mid);
    assert!(lr_end < 1e-9, "lr at end should approach 0, got {lr_end}");
}

/// The sampling probability that a phase stands for.
fn probability(epoch: usize, total: usize, max: f64) -> f64 {
    match sampling_phase(epoch, total) {
        SamplingPhase::Never => 0.0,
        SamplingPhase::Ramp { num, den } => (max * num as f64 / den as f64).clamp(0.0, max),
    }
}

#[test]
fn scheduled_sampling_ramps_from_zero_to_max() {
    let total = 10;
    let max = 0.8_f64;
    assert!((probability(0, total, max) - 0.0).abs() < 1e-12);
    let last = probability(total - 1, total, max);
    assert!((last - max).abs() < 1e-12, "last epoch should reach max, got {last}");
    let a = probability(3, total, max);
    let b = probability(7, total, max);
    assert!(a <= b);
    assert!((probability(0, 1, max) - 0.0).abs() < 1e-12);
}

#[test]
fn learning_rate_phases() {
    assert_eq!(lr_phase(7, 0, 3), LrPhase::Base);
    assert_eq!(lr_phase(0, 100, 10), LrPhase::Warmup { num: 1, den: 10 });
    assert_eq!(lr_phase(9, 100, 10), LrPhase::Warmup { num: 10, den: 10 });
    assert_eq!(lr_phase(10, 100, 10), LrPhase::Cosine { num: 0, den: 90 });
    assert_eq!(lr_phase(100, 100, 10), LrPhase::Cosine { num: 90, den: 90 });
    assert_eq!(lr_phase(500, 100, 10), LrPhase::Cosine { num: 90, den: 90 });
    assert_eq!(lr_phase(1, 1, 1), LrPhase::Cosine { num: 0, den: 1 });
    assert_eq!(warmup_steps(0), 1);
    assert_eq!(warmup_steps(19), 1);
    assert_eq!(warmup_steps(400), 20);
}

#[test]
fn rollouts_start_from_the_ground_truth() {
    assert_eq!(
        rollout_feeds(3, &vec![true, true, false]),
        vec![Feed::GroundTruth, Feed::Prediction, Feed::GroundTruth]
    );
}

#[test]
fn draws_are_reproducible() {
    let mut rng = Rng::new(42);
    assert_eq!(rng.next_u64(), 0x0832_8d7f_03bc_ec1a);
    assert_eq!(rng.next_u64(), 0x077e_7279_e17a_b6cd);
    assert_eq!(rng.next_u64(), 0x0c4e_098f_541b_b09e);
    let mut rng = Rng::new(7);
    let drawn: Vec<usize> = (0..8).map(|_| rng.below(10)).collect();
    assert_eq!(drawn, vec![4, 9, 4, 7, 8, 0, 4, 8]);
    let before = rng;
    assert_eq!(rng.below(0), 0);
    assert_eq!(rng, before);
}

#[test]
fn the_mixing_constant_is_a_dead_seed() {
    let mut rng = Rng::new(0x9e37_79b9_7f4a_7c15);
    assert_eq!(rng.next_u64(), 0);
    assert_eq!(rng.state, 0);
    let mut alive = Rng::new(0);
    alive.next_u64();
    assert_ne!(alive.state, 0);
}

#[test]
fn shuffles_keep_every_element() {
    let mut rng = Rng::new(42);
    let mut list: Vec<usize> = (0..6).collect();
    rng.shuffle(&mut list);
    assert_eq!(list, vec![3, 1, 0, 4, 5, 2]);
    let mut empty: Vec<u8> = Vec::new();
    rng.shuffle(&mut empty);
    assert!(empty.is_empty());
}

#[test]
fn sampling_draws_nothing_for_the_first_step() {
    let mut rng = Rng::new(7);
    let flags = rng.sample_steps(6, 1 << 52);
    assert_eq!(flags, vec![false, true, false, true, false, false]);
    let mut rng = Rng::new(7);
    let before = rng;
    assert_eq!(rng.sample_steps(1, u64::MAX), vec![false]);
    assert_eq!(rng, before);
    assert_eq!(rng.sample_steps(3, 0), vec![false, false, false]);
    assert!(rng.next_53() < 1 << 53);
}

fn argv(words: &[&str]) -> Vec<String> {
    words.iter().map(|w| (*w).to_owned()).collect()
}

fn read(words: &[&str]) -> Parsed<String> {
    let list = argv(words);
    let fractions: Vec<bool> = list.iter().map(|w| w.parse::<f64>().is_ok()).collect();
    parse(&list, &fractions)
}

fn run(words: &[&str]) -> Settings<String> {
    match read(words) {
        Parsed::Run(s) => s,
        other => panic!("expected options, got {other:?}"),
    }
}

fn wrong(words: &[&str]) -> ArgError<String> {
    match read(words) {
        Parsed::Wrong(e) => e,
        other => panic!("expected an error, got {other:?}"),
    }
}

#[test]
fn options_default() {
    let s = run(&["--data", "scenes"]);
    assert_eq!(s.data.as_deref(), Some("scenes"));
    assert_eq!(s.out, "checkpoints");
    assert_eq!((s.size, s.strategy), (ModelSize::M, TrainStrategy::Pairwise));
    assert_eq!((s.epochs, s.crop, s.seed, s.ckpt_every), (40, 256, 42, 200));
    assert_eq!(s.lr.parse::<f64>(), Ok(3e-4));
    assert_eq!(s.ss_max.parse::<f64>(), Ok(0.5));
    assert_eq!(s.photometric_weight.parse::<f64>(), Ok(0.1));
    assert!(!s.resume);
    assert_eq!((s.corr_radius, s.real_data), (None, None));
}

#[test]
fn options_are_read() {
    let s = run(&[
        "--size", " XL ", "--strategy", "fusion-align", "--resume", "--epochs", "+60", "--lr",
        "1e-3", "--crop", "128", "--seed", "7", "--ss-max", "0.8", "--ckpt-every", "0",
        "--corr-radius", "6", "--real-data", "real", "--photometric-weight", "0.2", "--out", "o",
        "--data", "a", "--data", "b",
    ]);
    assert_eq!((s.size, s.strategy), (ModelSize::Xl, TrainStrategy::FusionAlign));
    assert_eq!((s.epochs, s.crop, s.seed), (60, 128, 7));
    assert_eq!(s.ckpt_every, 1, "checkpoints are at least one step apart");
    assert!(s.resume);
    assert_eq!(s.corr_radius, Some(6));
    assert_eq!(s.real_data.as_deref(), Some("real"));
    assert_eq!((s.lr.as_str(), s.ss_max.as_str()), ("1e-3", "0.8"));
    assert_eq!(s.photometric_weight, "0.2");
    assert_eq!(s.out, "o");
    assert_eq!(s.data.as_deref(), Some("b"), "the later flag wins");
}

#[test]
fn help_ends_the_reading() {
    assert!(matches!(read(&["--help"]), Parsed::Help));
    assert!(matches!(read(&["--data", "a", "-h", "--bogus"]), Parsed::Help));
    assert!(matches!(read(&["--bogus", "-h"]), Parsed::Wrong(_)));
}

#[test]
fn wrong_options_are_refused() {
    let e = wrong(&["--data"]);
    assert_eq!(e, ArgError::MissingValue { flag: "--data".to_owned() });
    assert_eq!(e.message().as_deref(), Some("missing value for --data"));

    let e = wrong(&["--size", "huge"]);
    assert_eq!(e, ArgError::InvalidSize { value: "huge".to_owned() });
    assert_eq!(e.message().as_deref(), Some("invalid --size 'huge' (xs|s|m|l|xl|xxl)"));

    let e = wrong(&["--strategy", "Batch"]);
    assert_eq!(e, ArgError::InvalidStrategy { value: "Batch".to_owned() });
    assert_eq!(
        e.message().as_deref(),
        Some("invalid --strategy 'Batch' (pairwise|batch|align|fusion-align)")
    );

    let e = wrong(&["--epochs", "-1"]);
    let bad = ArgError::InvalidInteger { flag: "--epochs".to_owned(), value: "-1".to_owned() };
    assert_eq!(e, bad);
    assert_eq!(e.message(), None);
    assert!(matches!(wrong(&["--seed", "18446744073709551616"]), ArgError::InvalidInteger { .. }));
    assert!(matches!(wrong(&["--ckpt-every", ""]), ArgError::InvalidInteger { .. }));

    let e = wrong(&["--lr", "fast"]);
    let bad = ArgError::InvalidFloat { flag: "--lr".to_owned(), value: "fast".to_owned() };
    assert_eq!(e, bad);
    assert_eq!(e.message(), None);

    let e = wrong(&["--bogus"]);
    assert_eq!(e, ArgError::UnknownArgument { flag: "--bogus".to_owned() });
    assert_eq!(e.message().as_deref(), Some("unknown argument: --bogus"));

    let e = wrong(&["--resume"]);
    assert_eq!(e, ArgError::DataRequired);
    assert_eq!(e.message().as_deref(), Some("--data <dir> is required"));
}

#[test]
fn a_value_follows_its_flag() {
    let list = argv(&["--out", "dir"]);
    assert_eq!(value_after(&list, 0, "--out"), Ok("dir".to_owned()));
    let missing = || ArgError::MissingValue { flag: "--out".to_owned() };
    assert_eq!(value_after(&list, 1, "--out"), Err(missing()));
    assert_eq!(value_after(&list, 2, "--out"), Err(missing()));
    assert_eq!(value_after(&list, usize::MAX, "--out"), Err(missing()));
    assert_eq!(missing().message().as_deref(), Some("missing value for --out"));
    let flags = argv(&["--out", "--resume"]);
    assert_eq!(value_after(&flags, 0, "--out"), Ok("--resume".to_owned()));
}

#[test]
fn a_checkpoint_resumes_its_own_run() {
    let state = TrainState::of_run(ModelSize::S, TrainStrategy::Align, 3, 120);
    assert_eq!(validate_resume_state(&state, ModelSize::S, TrainStrategy::Align), Ok((3, 120)));

    let e = validate_resume_state(&state, ModelSize::M, TrainStrategy::Batch).unwrap_err();
    assert_eq!(e, ResumeError::Size { checkpoint: ModelSize::S, asked: ModelSize::M });
    assert_eq!(e.message(), "resume size mismatch: checkpoint is 's', --size is 'm'");

    let e = validate_resume_state(&state, ModelSize::S, TrainStrategy::Batch).unwrap_err();
    assert_eq!(
        e,
        ResumeError::Strategy { trained: "align".to_owned(), wanted: TrainStrategy::Batch }
    );
    assert_eq!(
        e.message(),
        "resume strategy mismatch: checkpoint is 'align', --strategy is 'batch'"
    );
}

#[test]
fn checkpoints_have_their_own_stems() {
    assert_eq!(latest_stem(TrainStrategy::Pairwise), "focusmerge_latest");
    assert_eq!(optim_stem(TrainStrategy::Align), "batchalign_latest.optim");
    assert_eq!(epoch_stem(TrainStrategy::Batch, 7), "batchmerge_epoch_007");
    assert_eq!(epoch_stem(TrainStrategy::Batch, 40), "batchmerge_epoch_040");
    assert_eq!(epoch_stem(TrainStrategy::FusionAlign, 1234), "fusionalign_epoch_1234");
    assert_eq!(final_stem(TrainStrategy::FusionAlign), "fusionalign_final");
}

#[test]
fn manifests_record_what_was_trained() {
    let m = training_manifest(TrainStrategy::Align, ModelSize::S, Some(6));
    assert_eq!(m.architecture, BATCHALIGN_V2);
    assert_eq!(m.corr_radius, Some(6));
    assert_eq!(m.to_align_config(), align_config(ModelSize::S, Some(6)));
    let m = training_manifest(TrainStrategy::FusionAlign, ModelSize::S, None);
    assert_eq!(m.architecture, FUSIONALIGN_V1);
    assert_eq!(m.to_fusion_align_config(), fusion_align_config(ModelSize::S, None));
    assert_eq!(m.corr_radius, Some(4));
    let m = training_manifest(TrainStrategy::Batch, ModelSize::S, Some(6));
    assert_eq!(m.architecture, BATCHMERGE_V2);
    assert_eq!(m.corr_radius, None);
    let m = training_manifest(TrainStrategy::Pairwise, ModelSize::L, None);
    assert_eq!(m, ModelManifest::from_size(ModelSize::L));
}

fn plan(strategy: TrainStrategy, examples: usize, rollout: Vec<usize>) -> TrainPlan {
    TrainPlan {
        strategy,
        examples,
        rollout,
        epochs: 2,
        crop: 32,
        ckpt_every: 3,
        real_scenes: 0,
        seed: 42,
    }
}

#[test]
fn a_pairwise_run_goes_through_its_steps() {
    let mut t = Trainer::new(plan(TrainStrategy::Pairwise, 2, vec![2, 3]), 0, 0);
    let mut seen: Vec<(usize, usize, usize, Vec<bool>)> = Vec::new();
    let mut saves: Vec<(usize, usize)> = Vec::new();
    let mut ends: Vec<(usize, usize, usize, usize)> = Vec::new();
    let mut action = t.proceed();
    loop {
        action = match action {
            Action::SizeExample { .. } => t.sized(100, 80, 1 << 52),
            Action::SizeReal { .. } => panic!("nothing to fine-tune on"),
            Action::Train(step) => {
                assert_eq!(step.crop.size, 32);
                assert!(step.real.is_none());
                seen.push((step.example, step.crop.top, step.crop.left, step.use_prediction));
                t.proceed()
            }
            Action::Report { epoch, step, log, save, finetune } => {
                assert!(!log && !finetune);
                if save {
                    saves.push((epoch, step));
                }
                t.proceed()
            }
            Action::EndEpoch { epoch, counted, next_epoch, step } => {
                ends.push((epoch, counted, next_epoch, step));
                t.proceed()
            }
            Action::Finish => break,
        };
    }
    assert_eq!(
        seen,
        vec![
            (1, 28, 0, vec![false, false, false]),
            (0, 9, 0, vec![false, true]),
            (1, 4, 23, vec![false, false, false]),
            (0, 47, 66, vec![false, false]),
        ]
    );
    assert_eq!(saves, vec![(1, 3)]);
    assert_eq!(ends, vec![(0, 2, 1, 2), (1, 2, 2, 4)]);
    assert_eq!(t.stage, Stage::Over);
    assert_eq!(t.step, 4);
}

#[test]
fn alignment_fine_tunes_in_the_last_quarter() {
    let mut p = plan(TrainStrategy::Align, 1, Vec::new());
    p.epochs = 4;
    p.crop = 8;
    p.real_scenes = 3;
    p.seed = 5;
    let mut t = Trainer::new(p, 0, 0);
    let mut real: Vec<Option<(usize, CropParams)>> = Vec::new();
    let mut tags: Vec<bool> = Vec::new();
    let mut action = t.proceed();
    loop {
        action = match action {
            Action::SizeExample { .. } => t.sized(20, 30, 0),
            Action::SizeReal { .. } => t.sized(16, 12, 0),
            Action::Train(step) => {
                assert!(step.use_prediction.is_empty());
                real.push(step.real);
                t.proceed()
            }
            Action::Report { finetune, .. } => {
                tags.push(finetune);
                t.proceed()
            }
            Action::EndEpoch { .. } => t.proceed(),
            Action::Finish => break,
        };
    }
    assert_eq!(
        real,
        vec![None, None, None, Some((1, CropParams { top: 3, left: 2, size: 8 }))]
    );
    assert_eq!(tags, vec![false, false, false, true]);
    assert_eq!((finetune_start(4), finetune_start(10), finetune_start(3)), (3, 8, 3));
}

#[test]
fn a_resumed_run_goes_on_where_it_stopped() {
    let mut t = Trainer::new(plan(TrainStrategy::Batch, 50, Vec::new()), 1, 50);
    let mut logged: Vec<usize> = Vec::new();
    let mut rates: Vec<LrPhase> = Vec::new();
    let mut action = t.proceed();
    loop {
        action = match action {
            Action::SizeExample { epoch, .. } => {
                assert_eq!(epoch, 1);
                t.sized(64, 64, 0)
            }
            Action::Train(step) => {
                rates.push(step.rate);
                t.proceed()
            }
            Action::Report { step, log, .. } => {
                if log {
                    logged.push(step);
                }
                t.proceed()
            }
            Action::Finish => break,
            _ => t.proceed(),
        };
    }
    assert_eq!(t.step, 100);
    assert_eq!(logged, vec![100]);
    assert_eq!(rates[0], LrPhase::Cosine { num: 45, den: 95 });
    assert_eq!(rates[49], LrPhase::Cosine { num: 94, den: 95 });
}

#[test]
fn a_finished_run_only_writes_its_result() {
    let mut t = Trainer::new(plan(TrainStrategy::Batch, 5, Vec::new()), 2, 10);
    assert!(matches!(t.proceed(), Action::Finish));
    assert!(matches!(t.proceed(), Action::Finish));
    assert_eq!(t.step, 10);
}

fn align_scene(dir: &str, n_planes: usize) -> AlignSequence {
    let one = 1.0f32.to_bits();
    let zero = 0.0f32.to_bits();
    let meta = AlignSceneMeta {
        n_planes,
        stack: (0..n_planes).map(|i| format!("frame_{i:03}.png")).collect(),
        alignment_gt: vec![[[one, zero, zero], [zero, one, zero], [zero, zero, one]]; n_planes],
        cropped_dims: [4, 4],
    };
    AlignSequence::new(dir.to_owned(), meta).unwrap()
}

#[test]
fn scenes_are_trained_in_directory_order() {
    let found = vec![align_scene("root/b", 2), align_scene("root/a", 1)];
    let scenes = discover_scenes(found).unwrap();
    let dirs: Vec<&str> = scenes.iter().map(|s| s.scene_dir.as_str()).collect();
    assert_eq!(dirs, vec!["root/a", "root/b"]);
    assert_eq!(pair_examples(&scenes), Ok(vec![(0, 0), (1, 0), (1, 1)]));
}

#[test]
fn nothing_to_train_on_is_refused() {
    let none: Vec<RolloutSequence> = Vec::new();
    assert_eq!(discover_scenes(none).err(), Some(NothingToTrain::NoScenes));
    assert_eq!(
        NothingToTrain::NoScenes.message("data/scenes"),
        "no scenes (dirs with metadata.json) found under data/scenes"
    );
    assert_eq!(pair_examples(&Vec::new()), Err(NothingToTrain::NoPairs));
    assert_eq!(
        NothingToTrain::NoPairs.message("data/scenes"),
        "no alignment scenes contain any frames to pair"
    );
}

#[test]
fn rollout_scenes_are_sorted_too() {
    let scene = |dir: &str| {
        let meta = SceneMeta {
            n_planes: 2,
            focus_fractions: vec![0.0f32.to_bits(), 1.0f32.to_bits()],
            stack: vec!["f0.png".to_owned(), "f1.png".to_owned()],
            masks: vec!["m0.png".to_owned(), "m1.png".to_owned()],
            allfocus: "a.png".to_owned(),
            occlusion: "o.png".to_owned(),
            merge_order: vec![0, 1],
        };
        RolloutSequence::new(dir.to_owned(), meta).unwrap()
    };
    let scenes = discover_scenes(vec![scene("s10"), scene("s1"), scene("s02")]).unwrap();
    let dirs: Vec<&str> = scenes.iter().map(|s| s.scene_dir.as_str()).collect();
    assert_eq!(dirs, vec!["s02", "s1", "s10"]);
}

#[test]
fn fine_tuning_needs_two_frames() {
    let scene = |dir: &str, n: usize| {
        let item = |i: usize| FolderItem { path: format!("{dir}/{i}.png"), is_file: true };
        RealStackScene::new(dir.to_owned(), (0..n).map(item).collect())
    };
    let kept = usable_real_scenes(vec![scene("a", 1), scene("b", 2), scene("c", 0), scene("d", 3)]);
    let dirs: Vec<&str> = kept.iter().map(|s| s.scene_dir.as_str()).collect();
    assert_eq!(dirs, vec!["b", "d"]);
}
