//! Checkpoints: their file stems, the geometry that is trained, and the
//! manifest written beside the weights.

use vstd::prelude::*;
use crate::discovery::{
    align_config_of, batch_config_of, focus_config_of, fusion_align_config_of,
    law_manifest_round_trip, records_batch, records_focus, value_or, ModelManifest, BATCHALIGN_V2,
    FUSIONALIGN_V1,
};
use crate::model::{
    batch_align_preset, batch_preset, focus_preset, fusion_align_preset, BatchAlignNetConfig,
    FusionAlignNetConfig, ModelSize,
};
use crate::text::{decimal3, law_padding_keeps_the_number, numeral, zero_padded};
use crate::train::args::{strategy_stem, TrainStrategy};

verus! {

fn stem_with(strategy: TrainStrategy, suffix: &str) -> (r: String)
    ensures
        r@ == strategy_stem(strategy) + suffix@,
{
    let mut s = strategy.stem_prefix().to_owned();
    s.append(suffix);
    s
}

/// Stem of the rolling checkpoint.
pub fn latest_stem(strategy: TrainStrategy) -> (r: String)
    ensures
        r@ == strategy_stem(strategy) + "_latest"@,
{
    stem_with(strategy, "_latest")
}

/// Stem of the optimiser's state beside the rolling checkpoint.
pub fn optim_stem(strategy: TrainStrategy) -> (r: String)
    ensures
        r@ == strategy_stem(strategy) + "_latest.optim"@,
{
    stem_with(strategy, "_latest.optim")
}

/// Stem of the checkpoint of an epoch, with the epoch in at least three digits.
pub open spec fn epoch_stem_text(strategy: TrainStrategy, epoch: nat) -> Seq<char> {
    strategy_stem(strategy) + "_epoch_"@ + zero_padded(numeral(epoch), 3)
}

/// Stem of the checkpoint of an epoch.
pub fn epoch_stem(strategy: TrainStrategy, epoch: usize) -> (r: String)
    ensures
        r@ == epoch_stem_text(strategy, epoch as nat),
{
    let mut s = stem_with(strategy, "_epoch_");
    let digits = decimal3(epoch);
    s.append(digits.as_str());
    s
}

/// Stem of the checkpoint that a finished run leaves.
pub fn final_stem(strategy: TrainStrategy) -> (r: String)
    ensures
        r@ == strategy_stem(strategy) + "_final"@,
{
    stem_with(strategy, "_final")
}

/// The batch alignment geometry that is trained: the preset's, with the search
/// radius asked for.
pub open spec fn trained_align(size: ModelSize, corr_radius: Option<usize>) -> BatchAlignNetConfig {
    let p = batch_align_preset(size);
    BatchAlignNetConfig { corr_radius: value_or(corr_radius, p.corr_radius), ..p }
}

/// The pairwise alignment geometry that is trained: the preset's, with the
/// search radius asked for.
pub open spec fn trained_fusion_align(
    size: ModelSize,
    corr_radius: Option<usize>,
) -> FusionAlignNetConfig {
    let p = fusion_align_preset(size);
    FusionAlignNetConfig { corr_radius: value_or(corr_radius, p.corr_radius), ..p }
}

/// The batch alignment geometry to train.
pub fn align_config(size: ModelSize, corr_radius: Option<usize>) -> (r: BatchAlignNetConfig)
    ensures
        r == trained_align(size, corr_radius),
{
    let mut config = BatchAlignNetConfig::from_size(size);
    if let Some(radius) = corr_radius {
        config.corr_radius = radius;
    }
    config
}

/// The pairwise alignment geometry to train.
pub fn fusion_align_config(size: ModelSize, corr_radius: Option<usize>) -> (r: FusionAlignNetConfig)
    ensures
        r == trained_fusion_align(size, corr_radius),
{
    let mut config = FusionAlignNetConfig::from_size(size);
    if let Some(radius) = corr_radius {
        config.corr_radius = radius;
    }
    config
}

/// Whether a manifest describes the network that a strategy trains, in full:
/// the strategy's architecture, and the exact geometry with its search radius.
pub open spec fn records_training(
    m: ModelManifest,
    strategy: TrainStrategy,
    size: ModelSize,
    corr_radius: Option<usize>,
) -> bool {
    match strategy {
        TrainStrategy::Pairwise => records_focus(m, size),
        TrainStrategy::Batch => records_batch(m, size),
        TrainStrategy::Align => {
            let c = trained_align(size, corr_radius);
            &&& m.architecture@ == BATCHALIGN_V2@
            &&& m.size == size
            &&& m.width == Some(c.width)
            &&& m.depth == Some(c.depth)
            &&& m.norm_groups == Some(c.norm_groups)
            &&& m.refine_scale is None
            &&& m.corr_radius == Some(c.corr_radius)
            &&& m.description@.len() == 0
        },
        TrainStrategy::FusionAlign => {
            let c = trained_fusion_align(size, corr_radius);
            &&& m.architecture@ == FUSIONALIGN_V1@
            &&& m.size == size
            &&& m.width == Some(c.width)
            &&& m.depth == Some(c.depth)
            &&& m.norm_groups == Some(c.norm_groups)
            &&& m.refine_scale is None
            &&& m.corr_radius == Some(c.corr_radius)
            &&& m.description@.len() == 0
        },
    }
}

/// The manifest written beside a run's weights.
pub fn training_manifest(
    strategy: TrainStrategy,
    size: ModelSize,
    corr_radius: Option<usize>,
) -> (r: ModelManifest)
    ensures
        records_training(r, strategy, size, corr_radius),
{
    match strategy {
        TrainStrategy::Pairwise => ModelManifest::from_size(size),
        TrainStrategy::Batch => ModelManifest::from_size_batch(size),
        TrainStrategy::Align => {
            let mut m = ModelManifest::from_size_align(size);
            m.corr_radius = Some(align_config(size, corr_radius).corr_radius);
            m
        },
        TrainStrategy::FusionAlign => {
            let mut m = ModelManifest::from_size_fusion_align(size);
            m.corr_radius = Some(fusion_align_config(size, corr_radius).corr_radius);
            m
        },
    }
}

/// A checkpoint's manifest gives back the alignment geometry that was trained,
/// whatever search radius was asked for.
pub proof fn law_checkpoint_restores_geometry(
    m: ModelManifest,
    size: ModelSize,
    corr_radius: Option<usize>,
)
    ensures
        records_training(m, TrainStrategy::Align, size, corr_radius) ==> align_config_of(m)
            == trained_align(size, corr_radius),
        records_training(m, TrainStrategy::FusionAlign, size, corr_radius)
            ==> fusion_align_config_of(m) == trained_fusion_align(size, corr_radius),
{
}

/// The search radius asked for is trained with, in place of the preset's; all
/// else is the preset's.
pub proof fn law_radius_asked_for_is_trained(size: ModelSize, radius: usize)
    ensures
        trained_align(size, None) == batch_align_preset(size),
        trained_fusion_align(size, None) == fusion_align_preset(size),
        trained_align(size, Some(radius)).corr_radius == radius,
        trained_fusion_align(size, Some(radius)).corr_radius == radius,
        trained_align(size, Some(radius)).width == batch_align_preset(size).width,
        trained_align(size, Some(radius)).depth == batch_align_preset(size).depth,
        trained_align(size, Some(radius)).norm_groups == batch_align_preset(size).norm_groups,
        trained_fusion_align(size, Some(radius)).width == fusion_align_preset(size).width,
        trained_fusion_align(size, Some(radius)).depth == fusion_align_preset(size).depth,
        trained_fusion_align(size, Some(radius)).norm_groups == fusion_align_preset(
            size,
        ).norm_groups,
{
}

/// A run's manifest names the network that its strategy trains, by that
/// network's tag, with its size.
pub proof fn law_manifest_names_the_strategy(
    strategy: TrainStrategy,
    size: ModelSize,
    corr_radius: Option<usize>,
    m: ModelManifest,
)
    requires
        call_ensures(training_manifest, (strategy, size, corr_radius), m),
    ensures
        m.size == size,
        m.architecture@ == (match strategy {
            TrainStrategy::Pairwise => "focusmerge-v1"@,
            TrainStrategy::Batch => "batchmerge-v2"@,
            TrainStrategy::Align => "batchalign-v2"@,
            TrainStrategy::FusionAlign => "fusionalign-v1"@,
        }),
        strategy == TrainStrategy::Pairwise ==> focus_config_of(m) == focus_preset(size),
        strategy == TrainStrategy::Batch ==> batch_config_of(m) == batch_preset(size),
        strategy == TrainStrategy::Align ==> align_config_of(m) == trained_align(size, corr_radius),
        strategy == TrainStrategy::FusionAlign ==> fusion_align_config_of(m)
            == trained_fusion_align(size, corr_radius),
{
    law_checkpoint_restores_geometry(m, size, corr_radius);
    law_manifest_round_trip(m, size);
}

proof fn lemma_suffix(stem: Seq<char>, a: Seq<char>, b: Seq<char>)
    requires
        stem + a == stem + b,
    ensures
        a == b,
{
    let whole = stem + a;
    assert(whole.skip(stem.len() as int) =~= a);
    assert((stem + b).skip(stem.len() as int) =~= b);
}

/// A run's checkpoints never overwrite each other: the rolling one, its
/// optimiser's state, the final one and those of different epochs all have
/// stems of their own.
pub proof fn law_checkpoints_have_their_own_files(
    strategy: TrainStrategy,
    epoch: usize,
    other: usize,
    latest: String,
    optim: String,
    last: String,
    a: String,
    b: String,
)
    requires
        call_ensures(latest_stem, (strategy,), latest),
        call_ensures(optim_stem, (strategy,), optim),
        call_ensures(final_stem, (strategy,), last),
        call_ensures(epoch_stem, (strategy, epoch), a),
        call_ensures(epoch_stem, (strategy, other), b),
    ensures
        latest@ != optim@,
        latest@ != last@,
        latest@ != a@,
        optim@ != last@,
        optim@ != a@,
        last@ != a@,
        a@ == b@ <==> epoch == other,
{
    reveal_strlit("_latest");
    reveal_strlit("_latest.optim");
    reveal_strlit("_final");
    reveal_strlit("_epoch_");
    let stem = strategy_stem(strategy);
    let n = stem.len() as int;
    let digits = zero_padded(numeral(epoch as nat), 3);
    let others = zero_padded(numeral(other as nat), 3);
    assert(latest@.len() == n + 7 && optim@.len() == n + 13);
    assert("_latest"@[1] == 'l' && "_latest.optim"@[1] == 'l' && "_final"@[1] == 'f'
        && "_epoch_"@[1] == 'e');
    assert(latest@[n + 1] == 'l' && optim@[n + 1] == 'l' && last@[n + 1] == 'f');
    assert(a@[n + 1] == 'e');
    if a@ == b@ {
        lemma_suffix(stem + "_epoch_"@, digits, others);
        law_padding_keeps_the_number(epoch as nat, other as nat, 3);
    }
}

} // verus!
