//! A training run, as a machine: it says what to do next, and is told what was
//! found.
//!
//! Each epoch visits every example once, in a drawn order. An example's images
//! are cropped at a drawn place, the model takes one optimiser step, and the
//! rolling checkpoint is written every so many steps and after each epoch.

use vstd::prelude::*;
use crate::data::crop::CropParams;
use crate::train::args::TrainStrategy;
use crate::train::rng::{
    after_draws, crop_side, draw_below, law_bounded_number_takes_one_draw, law_draws_follow_on,
    law_each_step_draws_its_decision, law_shuffle_draws_every_place, law_shuffle_is_permutation,
    output_of, random_crop_dims, sampling_flags, shuffled, Rng, SEED_MIX,
};
use crate::train::schedule::{lr_phase, phase_at, warmup_of, warmup_steps, LrPhase};

verus! {

/// Steps between two lines of the log.
pub const LOG_EVERY: usize = 50;

/// What a run is made of.
#[derive(Debug)]
pub struct TrainPlan {
    pub strategy: TrainStrategy,
    /// Number of examples in an epoch.
    pub examples: usize,
    /// Number of rollout steps of each example, for pairwise fusion.
    pub rollout: Vec<usize>,
    pub epochs: usize,
    /// Largest side of a crop.
    pub crop: usize,
    /// Steps between two rolling checkpoints.
    pub ckpt_every: usize,
    /// Number of unlabelled scenes to fine-tune on.
    pub real_scenes: usize,
    pub seed: u64,
}

impl TrainPlan {
    /// What holds of every plan: pairwise fusion has a rollout for each
    /// example, checkpoints are at least one step apart, and all steps can be
    /// counted.
    pub open spec fn is_wf(self) -> bool {
        &&& self.strategy == TrainStrategy::Pairwise ==> self.rollout@.len() == self.examples
        &&& self.ckpt_every > 0
        &&& self.epochs * self.examples <= usize::MAX
    }

    /// Number of optimiser steps in all epochs.
    pub open spec fn total_steps(self) -> int {
        self.epochs * self.examples
    }
}

/// The first epoch of the fine-tuning phase: it takes up the last quarter.
pub open spec fn finetune_start_of(epochs: int) -> int {
    epochs - epochs / 4
}

/// The first epoch of the fine-tuning phase.
pub fn finetune_start(epochs: usize) -> (r: usize)
    ensures
        r == finetune_start_of(epochs as int),
{
    epochs - epochs / 4
}

/// Whether an epoch fine-tunes: alignment training does, in the last quarter of
/// its epochs, where there are unlabelled scenes.
pub open spec fn finetunes(plan: TrainPlan, epoch: int) -> bool {
    &&& plan.strategy == TrainStrategy::Align
    &&& plan.real_scenes > 0
    &&& epoch >= finetune_start_of(plan.epochs as int)
}

/// What a run waits for.
#[derive(Debug, Clone, Copy, PartialEq, Eq, Structural)]
pub enum Stage {
    /// Nothing; an epoch begins.
    Begin,
    /// The size of the example's images.
    ExampleSize,
    /// The size of an unlabelled scene's images.
    RealSize { crop: CropParams, scene: usize },
    /// The optimiser's step.
    Step,
    /// The step's report and its rolling checkpoint.
    Report,
    /// The epoch's report and its checkpoints.
    EpochReport,
    /// Nothing; the run is over.
    Over,
}

/// One optimiser step. `F` is the type of flag lists.
#[derive(Debug)]
pub struct TrainStep<F> {
    pub example: usize,
    pub crop: CropParams,
    /// For each rollout step, whether it samples the model's prediction; empty
    /// but for pairwise fusion.
    pub use_prediction: F,
    /// The unlabelled scene to fine-tune on, and its crop.
    pub real: Option<(usize, CropParams)>,
    pub rate: LrPhase,
}

/// What to do next. `F` is the type of flag lists.
#[derive(Debug)]
pub enum Action<F> {
    /// Find the size of an example's images.
    SizeExample { epoch: usize, example: usize },
    /// Find the size of an unlabelled scene's images.
    SizeReal { scene: usize },
    /// Take one optimiser step.
    Train(TrainStep<F>),
    /// Report a finished step where `log` is set, and write the rolling
    /// checkpoint, to be resumed at this epoch and step, where `save` is set.
    Report { epoch: usize, step: usize, log: bool, save: bool, finetune: bool },
    /// Report an epoch over `counted` steps, write its checkpoint, and write the
    /// rolling one, to be resumed at `next_epoch` and `step`.
    EndEpoch { epoch: usize, counted: usize, next_epoch: usize, step: usize },
    /// Write the final checkpoint.
    Finish,
}

/// How far a run has come.
pub struct Progress {
    pub epoch: int,
    /// Optimiser steps so far, those of earlier runs included.
    pub step: int,
    /// Examples of the epoch that are done.
    pub position: int,
    /// The epoch's examples, in the order they are visited.
    pub order: Seq<usize>,
    /// The random generator's state.
    pub rng: u64,
    pub stage: Stage,
}

/// The numbers below `n`, in order.
pub open spec fn identity(n: nat) -> Seq<usize> {
    Seq::new(n, |i: int| i as usize)
}

/// A run before its first action.
pub open spec fn started(plan: TrainPlan, epoch: int, step: int) -> Progress {
    Progress {
        epoch,
        step,
        position: 0,
        order: Seq::empty(),
        rng: plan.seed.wrapping_add(step as u64) ^ SEED_MIX,
        stage: Stage::Begin,
    }
}

/// A drawn crop, and the generator's state after it.
pub open spec fn drawn_crop(w: int, h: int, max_size: int, x: u64) -> (CropParams, u64) {
    let size = crop_side(w, h, max_size);
    let (top, y) = draw_below(x, h - size + 1);
    let (left, z) = draw_below(y, w - size + 1);
    (CropParams { top: top as usize, left: left as usize, size: size as usize }, z)
}

/// The phase of the learning rate at a run's next step.
pub open spec fn rate_of(plan: TrainPlan, step: int) -> LrPhase {
    phase_at(step, plan.total_steps(), warmup_of(plan.total_steps()))
}

/// The next example's turn, or the end of the epoch.
pub open spec fn to_example(plan: TrainPlan, s: Progress) -> (Progress, Action<Seq<bool>>) {
    if s.position < plan.examples {
        (
            Progress { stage: Stage::ExampleSize, ..s },
            Action::SizeExample { epoch: s.epoch as usize, example: s.order[s.position] },
        )
    } else {
        (
            Progress { stage: Stage::EpochReport, ..s },
            Action::EndEpoch {
                epoch: s.epoch as usize,
                counted: s.position as usize,
                next_epoch: (s.epoch + 1) as usize,
                step: s.step as usize,
            },
        )
    }
}

/// The next epoch's turn, or the end of the run.
pub open spec fn to_epoch(plan: TrainPlan, s: Progress) -> (Progress, Action<Seq<bool>>) {
    if s.epoch < plan.epochs {
        let (order, x) = shuffled(identity(plan.examples as nat), s.rng, plan.examples - 1);
        to_example(plan, Progress { position: 0, order, rng: x, ..s })
    } else {
        (Progress { stage: Stage::Over, ..s }, Action::Finish)
    }
}

/// How a run goes on where it waits for no size.
pub open spec fn proceeded(plan: TrainPlan, s: Progress) -> (Progress, Action<Seq<bool>>) {
    match s.stage {
        Stage::Begin => to_epoch(plan, s),
        Stage::Step => {
            let step = s.step + 1;
            (
                Progress { step, position: s.position + 1, stage: Stage::Report, ..s },
                Action::Report {
                    epoch: s.epoch as usize,
                    step: step as usize,
                    log: step % (LOG_EVERY as int) == 0,
                    save: step % (plan.ckpt_every as int) == 0,
                    finetune: finetunes(plan, s.epoch),
                },
            )
        },
        Stage::Report => to_example(plan, s),
        Stage::EpochReport => to_epoch(plan, Progress { epoch: s.epoch + 1, ..s }),
        _ => (s, Action::Finish),
    }
}

/// How a run goes on once the size that it waits for is known. `limit` is the
/// epoch's sampling limit.
pub open spec fn sized(plan: TrainPlan, s: Progress, w: int, h: int, limit: u64) -> (
    Progress,
    Action<Seq<bool>>,
) {
    let (crop, x) = drawn_crop(w, h, plan.crop as int, s.rng);
    match s.stage {
        Stage::RealSize { crop: first, scene } => (
            Progress { rng: x, stage: Stage::Step, ..s },
            Action::Train(
                TrainStep {
                    example: s.order[s.position],
                    crop: first,
                    use_prediction: Seq::empty(),
                    real: Some((scene, crop)),
                    rate: rate_of(plan, s.step),
                },
            ),
        ),
        _ => if finetunes(plan, s.epoch) {
            let (scene, y) = draw_below(x, plan.real_scenes as int);
            (
                Progress {
                    rng: y,
                    stage: Stage::RealSize { crop, scene: scene as usize },
                    ..s
                },
                Action::SizeReal { scene: scene as usize },
            )
        } else {
            let n = if plan.strategy == TrainStrategy::Pairwise {
                plan.rollout@[s.order[s.position] as int] as int
            } else {
                0
            };
            let (flags, y) = sampling_flags(x, n, limit);
            (
                Progress { rng: y, stage: Stage::Step, ..s },
                Action::Train(
                    TrainStep {
                        example: s.order[s.position],
                        crop,
                        use_prediction: flags,
                        real: None,
                        rate: rate_of(plan, s.step),
                    },
                ),
            )
        },
    }
}

/// Whether a run waits for a size.
pub open spec fn awaits_size(s: Progress) -> bool {
    s.stage is ExampleSize || s.stage is RealSize
}

/// The number of steps that are still to come.
pub open spec fn steps_left(plan: TrainPlan, s: Progress) -> int {
    match s.stage {
        Stage::Over => 0,
        Stage::Begin => if s.epoch < plan.epochs {
            (plan.epochs - s.epoch) * plan.examples
        } else {
            0
        },
        _ => (plan.epochs - s.epoch) * plan.examples - s.position,
    }
}

/// Whether a list holds every number below `n` exactly once.
pub open spec fn is_order(order: Seq<usize>, n: int) -> bool {
    &&& order.len() == n
    &&& order.no_duplicates()
    &&& forall|i: int| 0 <= i < n ==> (#[trigger] order[i]) < n
}

/// What holds at every point of a run: the epoch's order visits every example
/// once, at most all of them are done, and the steps can be counted to the end.
pub open spec fn progress_ok(plan: TrainPlan, s: Progress) -> bool {
    &&& plan.is_wf()
    &&& 0 <= s.epoch <= usize::MAX
    &&& 0 <= s.step
    &&& s.step + steps_left(plan, s) <= usize::MAX
    &&& match s.stage {
        Stage::Begin => true,
        Stage::Over => true,
        Stage::ExampleSize | Stage::RealSize { .. } | Stage::Step => {
            &&& s.epoch < plan.epochs
            &&& is_order(s.order, plan.examples as int)
            &&& 0 <= s.position < plan.examples
        },
        Stage::Report => {
            &&& s.epoch < plan.epochs
            &&& is_order(s.order, plan.examples as int)
            &&& 0 <= s.position <= plan.examples
        },
        Stage::EpochReport => {
            &&& s.epoch < plan.epochs
            &&& is_order(s.order, plan.examples as int)
            &&& s.position == plan.examples
        },
    }
}

proof fn lemma_shuffle_is_order(n: nat, x: u64)
    requires
        n <= usize::MAX,
    ensures
        is_order(shuffled(identity(n), x, n - 1).0, n as int),
{
    let s = identity(n);
    let t = shuffled(s, x, n - 1).0;
    law_shuffle_is_permutation(s, x, n - 1);
    broadcast use vstd::seq_lib::group_to_multiset_ensures;

    assert(s.no_duplicates());
    s.lemma_multiset_has_no_duplicates();
    t.lemma_multiset_has_no_duplicates_conv();
    assert forall|i: int| 0 <= i < n implies (#[trigger] t[i]) < n by {
        assert(t.contains(t[i]));
        assert(t.to_multiset().count(t[i]) > 0);
        assert(s.to_multiset().count(t[i]) > 0);
        assert(s.contains(t[i]));
        let j = choose|j: int| 0 <= j < s.len() && s[j] == t[i];
        assert(s[j] == j);
    }
}

/// Every epoch visits every example exactly once, whatever was drawn before it.
pub proof fn law_epoch_visits_every_example(plan: TrainPlan, s: Progress, example: usize)
    requires
        s.stage == Stage::Begin || s.stage == Stage::EpochReport,
        (if s.stage == Stage::Begin { s.epoch } else { s.epoch + 1 }) < plan.epochs,
        example < plan.examples,
    ensures
        ({
            let order = proceeded(plan, s).0.order;
            &&& is_order(order, plan.examples as int)
            &&& order.contains(example)
        }),
{
    let x = s.rng;
    let n = plan.examples as nat;
    lemma_shuffle_is_order(n, x);
    let order = shuffled(identity(n), x, n - 1).0;
    assert(proceeded(plan, s).0.order == order);
    law_shuffle_is_permutation(identity(n), x, n - 1);
    broadcast use vstd::seq_lib::group_to_multiset_ensures;

    assert(identity(n)[example as int] == example);
    assert(identity(n).contains(example));
    assert(identity(n).to_multiset().count(example) > 0);
    assert(order.to_multiset().count(example) > 0);
}

proof fn lemma_epoch_product(epochs: int, epoch: int, n: int)
    requires
        0 <= epoch < epochs,
        0 <= n,
    ensures
        (epochs - epoch) * n == n + (epochs - (epoch + 1)) * n,
        0 <= (epochs - (epoch + 1)) * n,
{
    assert((epochs - epoch) * n == n + (epochs - (epoch + 1)) * n) by (nonlinear_arith);
    assert(0 <= (epochs - (epoch + 1)) * n) by (nonlinear_arith)
        requires
            0 <= epoch < epochs,
            0 <= n,
    ;
}

proof fn lemma_to_epoch(plan: TrainPlan, s: Progress)
    requires
        plan.is_wf(),
        0 <= s.epoch <= usize::MAX,
        0 <= s.step,
        s.step + (if s.epoch < plan.epochs { (plan.epochs - s.epoch) * plan.examples } else { 0 })
            <= usize::MAX,
    ensures
        progress_ok(plan, to_epoch(plan, s).0),
        to_epoch(plan, s).0.step == s.step,
        steps_left(plan, to_epoch(plan, s).0) == (if s.epoch < plan.epochs {
            (plan.epochs - s.epoch) * plan.examples
        } else {
            0
        }),
{
    if s.epoch < plan.epochs {
        lemma_shuffle_is_order(plan.examples as nat, s.rng);
    }
}

/// A run keeps what holds of it, and the steps done and to come always add up
/// to the same number: no step is lost or repeated.
pub proof fn law_steps_add_up(plan: TrainPlan, s: Progress, w: int, h: int, limit: u64)
    requires
        progress_ok(plan, s),
    ensures
        ({
            let t = if awaits_size(s) {
                sized(plan, s, w, h, limit).0
            } else {
                proceeded(plan, s).0
            };
            &&& progress_ok(plan, t)
            &&& t.step + steps_left(plan, t) == s.step + steps_left(plan, s)
            &&& t.step == s.step || t.step == s.step + 1
        }),
{
    match s.stage {
        Stage::Begin => lemma_to_epoch(plan, s),
        Stage::EpochReport => {
            lemma_epoch_product(plan.epochs as int, s.epoch, plan.examples as int);
            assert((plan.epochs - plan.epochs) * plan.examples == 0) by (nonlinear_arith);
            lemma_to_epoch(plan, Progress { epoch: s.epoch + 1, ..s });
        },
        Stage::Step => {
            lemma_epoch_product(plan.epochs as int, s.epoch, plan.examples as int);
        },
        _ => {},
    }
}

/// Whether `t` is what a run at `s` becomes next, for some size found.
pub open spec fn follows(plan: TrainPlan, s: Progress, t: Progress) -> bool {
    if awaits_size(s) {
        exists|w: int, h: int, limit: u64| t == #[trigger] sized(plan, s, w, h, limit).0
    } else {
        t == proceeded(plan, s).0
    }
}

/// Whether the point after `i` follows on it.
pub open spec fn follows_at(plan: TrainPlan, trace: Seq<Progress>, i: int) -> bool {
    follows(plan, trace[i], trace[i + 1])
}

/// Whether `trace` is the course of a run from an epoch and a step.
pub open spec fn is_run(plan: TrainPlan, epoch: int, step: int, trace: Seq<Progress>) -> bool {
    &&& trace.len() > 0
    &&& trace[0] == started(plan, epoch, step)
    &&& progress_ok(plan, trace[0])
    &&& forall|i: int| 0 <= i < trace.len() - 1 ==> #[trigger] follows_at(plan, trace, i)
}

proof fn lemma_follows(plan: TrainPlan, s: Progress, t: Progress)
    requires
        progress_ok(plan, s),
        follows(plan, s, t),
    ensures
        progress_ok(plan, t),
        t.step + steps_left(plan, t) == s.step + steps_left(plan, s),
{
    if awaits_size(s) {
        let (w, h, limit) = choose|w: int, h: int, limit: u64|
            t == #[trigger] sized(plan, s, w, h, limit).0;
        law_steps_add_up(plan, s, w, h, limit);
    } else {
        law_steps_add_up(plan, s, 0, 0, 0);
    }
}

proof fn lemma_run_so_far(plan: TrainPlan, epoch: int, step: int, trace: Seq<Progress>, i: int)
    requires
        is_run(plan, epoch, step, trace),
        0 <= i < trace.len(),
    ensures
        progress_ok(plan, trace[i]),
        trace[i].step + steps_left(plan, trace[i]) == step + steps_left(plan, trace[0]),
    decreases i,
{
    if i > 0 {
        lemma_run_so_far(plan, epoch, step, trace, i - 1);
        assert(follows_at(plan, trace, i - 1));
        lemma_follows(plan, trace[i - 1], trace[i]);
    }
}

/// A run that has come to its end has taken one step for each example of each
/// epoch that it was to run, whatever sizes it was told.
pub proof fn law_run_takes_every_step(
    plan: TrainPlan,
    epoch: int,
    step: int,
    trace: Seq<Progress>,
)
    requires
        is_run(plan, epoch, step, trace),
        trace.last().stage == Stage::Over,
    ensures
        trace.last().step == step + (if epoch < plan.epochs {
            (plan.epochs - epoch) * plan.examples
        } else {
            0
        }),
{
    lemma_run_so_far(plan, epoch, step, trace, trace.len() - 1);
}

/// A bound on the number of actions that are still to come.
pub open spec fn actions_left(plan: TrainPlan, s: Progress) -> int {
    let per_epoch = 4 * plan.examples + 2;
    let later = (plan.epochs - s.epoch - 1) * per_epoch + 2;
    let here = 4 * (plan.examples - s.position);
    match s.stage {
        Stage::Over => 0,
        Stage::Begin => if s.epoch < plan.epochs {
            later + per_epoch
        } else {
            1
        },
        Stage::ExampleSize => later + here,
        Stage::RealSize { .. } => later + here - 1,
        Stage::Step => later + here - 2,
        Stage::Report => later + here + 1,
        Stage::EpochReport => later,
    }
}

/// Every run comes to its end: each action brings it nearer.
pub proof fn law_run_ends(plan: TrainPlan, s: Progress, t: Progress)
    requires
        progress_ok(plan, s),
        s.stage != Stage::Over,
        follows(plan, s, t),
    ensures
        0 <= actions_left(plan, t) < actions_left(plan, s),
{
    lemma_follows(plan, s, t);
    let per_epoch = 4 * plan.examples + 2;
    if s.epoch < plan.epochs {
        lemma_epoch_product(plan.epochs as int, s.epoch, per_epoch as int);
        if s.epoch + 1 < plan.epochs {
            lemma_epoch_product(plan.epochs as int, s.epoch + 1, per_epoch as int);
        }
    }
}

/// The fine-tuning phase takes up the last quarter of the epochs, rounded down.
pub proof fn law_finetune_is_last_quarter(epochs: int)
    requires
        0 <= epochs,
    ensures
        0 <= finetune_start_of(epochs) <= epochs,
        epochs - finetune_start_of(epochs) == epochs / 4,
{
}

/// A run that goes on from the checkpoint written after an epoch takes exactly
/// the steps that were still to come.
pub proof fn law_resumed_run_completes(plan: TrainPlan, s: Progress)
    requires
        progress_ok(plan, s),
        s.stage == Stage::EpochReport,
    ensures
        ({
            let again = started(plan, s.epoch + 1, s.step);
            &&& progress_ok(plan, again)
            &&& steps_left(plan, again) == steps_left(plan, s)
        }),
{
    lemma_epoch_product(plan.epochs as int, s.epoch, plan.examples as int);
    assert((plan.epochs - plan.epochs) * plan.examples == 0) by (nonlinear_arith);
}

/// Whether a run at `s` may become `t` next and ask for `a`, for some size
/// found and some sampling limit.
pub open spec fn may_act(
    plan: TrainPlan,
    s: Progress,
    t: Progress,
    a: Action<Seq<bool>>,
) -> bool {
    if awaits_size(s) {
        exists|w: int, h: int, limit: u64| (t, a) == #[trigger] sized(plan, s, w, h, limit)
    } else {
        (t, a) == proceeded(plan, s)
    }
}

/// Every action is about the example whose turn it is, the one at the epoch's
/// position: its size is asked for, and it is trained on, in fine-tuning epochs
/// too. Order and position stay while an example has its turn; with the step
/// taken the position moves on by one.
pub proof fn law_every_action_is_about_the_turn(
    plan: TrainPlan,
    s: Progress,
    t: Progress,
    a: Action<Seq<bool>>,
)
    requires
        progress_ok(plan, s),
        may_act(plan, s, t, a),
    ensures
        match a {
            Action::SizeExample { epoch, example } => {
                &&& t.stage == Stage::ExampleSize
                &&& 0 <= t.position < plan.examples
                &&& example == t.order[t.position]
                &&& epoch == t.epoch
                &&& t.step == s.step
                &&& if s.stage == Stage::Report {
                    t.order == s.order && t.position == s.position && t.epoch == s.epoch
                } else {
                    t.position == 0
                }
            },
            Action::SizeReal { scene } => {
                &&& s.stage == Stage::ExampleSize
                &&& t.stage matches Stage::RealSize { crop, scene: kept }
                &&& kept == scene
                &&& t.order == s.order && t.position == s.position
                &&& t.epoch == s.epoch && t.step == s.step
            },
            Action::Train(step) => {
                &&& awaits_size(s)
                &&& t.stage == Stage::Step
                &&& step.example == s.order[s.position]
                &&& t.order == s.order && t.position == s.position
                &&& t.epoch == s.epoch && t.step == s.step
            },
            Action::Report { epoch, step, log, save, finetune } => {
                &&& s.stage == Stage::Step && t.stage == Stage::Report
                &&& t.order == s.order && t.position == s.position + 1
                &&& t.epoch == s.epoch && t.step == s.step + 1
                &&& epoch == s.epoch
                &&& step == s.step + 1
            },
            Action::EndEpoch { epoch, counted, next_epoch, step } => {
                &&& t.stage == Stage::EpochReport
                &&& t.position == plan.examples
                &&& counted == plan.examples
                &&& epoch == t.epoch && next_epoch == t.epoch + 1
                &&& step == s.step && t.step == s.step
            },
            Action::Finish => {
                &&& t.stage == Stage::Over
                &&& s.stage == Stage::Begin ==> s.epoch >= plan.epochs
                &&& s.stage == Stage::EpochReport ==> s.epoch + 1 >= plan.epochs
            },
        },
{
    if s.epoch < plan.epochs {
        lemma_epoch_product(plan.epochs as int, s.epoch, plan.examples as int);
    }
    if awaits_size(s) {
        let (w, h, limit) = choose|w: int, h: int, limit: u64|
            (t, a) == #[trigger] sized(plan, s, w, h, limit);
        assert((t, a) == sized(plan, s, w, h, limit));
    } else if s.stage == Stage::Begin {
        lemma_to_epoch(plan, s);
    } else if s.stage == Stage::EpochReport {
        assert((plan.epochs - plan.epochs) * plan.examples == 0) by (nonlinear_arith);
        lemma_to_epoch(plan, Progress { epoch: s.epoch + 1, ..s });
    }
}

/// The examples that some actions train on, in order.
pub open spec fn trained(actions: Seq<Action<Seq<bool>>>) -> Seq<usize>
    decreases actions.len(),
{
    if actions.len() == 0 {
        Seq::empty()
    } else {
        match actions.last() {
            Action::Train(step) => trained(actions.drop_last()).push(step.example),
            _ => trained(actions.drop_last()),
        }
    }
}

/// Whether the run goes on from point `i` of `trace` by action `i`.
pub open spec fn acts_at(
    plan: TrainPlan,
    trace: Seq<Progress>,
    actions: Seq<Action<Seq<bool>>>,
    i: int,
) -> bool {
    may_act(plan, trace[i], trace[i + 1], actions[i])
}

/// Whether `trace` and `actions` are the course of one epoch of a run, from
/// the turn of its first example to its report.
pub open spec fn is_epoch(
    plan: TrainPlan,
    trace: Seq<Progress>,
    actions: Seq<Action<Seq<bool>>>,
) -> bool {
    &&& trace.len() == actions.len() + 1
    &&& progress_ok(plan, trace[0])
    &&& trace[0].stage == Stage::ExampleSize && trace[0].position == 0
    &&& trace.last().stage == Stage::EpochReport
    &&& forall|i: int| 0 <= i < actions.len() ==> #[trigger] acts_at(plan, trace, actions, i)
    &&& forall|i: int|
        0 <= i < actions.len() ==> (#[trigger] trace[i]).stage != Stage::EpochReport
}

proof fn lemma_epoch_so_far(
    plan: TrainPlan,
    trace: Seq<Progress>,
    actions: Seq<Action<Seq<bool>>>,
    i: int,
)
    requires
        is_epoch(plan, trace, actions),
        0 <= i < trace.len(),
    ensures
        progress_ok(plan, trace[i]),
        trace[i].order == trace[0].order,
        trace[i].epoch == trace[0].epoch,
        trace[i].stage != Stage::Begin,
        trace[i].stage != Stage::Over,
        0 <= trace[i].position <= plan.examples,
        trained(actions.take(i)) == trace[0].order.take(
            trace[i].position + (if trace[i].stage == Stage::Step {
                1int
            } else {
                0
            }),
        ),
    decreases i,
{
    if i > 0 {
        lemma_epoch_so_far(plan, trace, actions, i - 1);
        let s = trace[i - 1];
        let t = trace[i];
        let a = actions[i - 1];
        let order = trace[0].order;
        assert(acts_at(plan, trace, actions, i - 1));
        law_every_action_is_about_the_turn(plan, s, t, a);
        if awaits_size(s) {
            let (w, h, limit) = choose|w: int, h: int, limit: u64|
                (t, a) == #[trigger] sized(plan, s, w, h, limit);
            assert(t == sized(plan, s, w, h, limit).0);
            assert(follows(plan, s, t));
        }
        lemma_follows(plan, s, t);
        assert(actions.take(i).drop_last() =~= actions.take(i - 1));
        assert(actions.take(i).last() == a);
        if a is Train {
            assert(order.take(s.position + 1) =~= order.take(s.position).push(order[s.position]));
        }
    } else {
        assert(actions.take(0) =~= Seq::<Action<Seq<bool>>>::empty());
        assert(trace[0].order.take(0) =~= Seq::<usize>::empty());
    }
}

/// Over an epoch the run trains on every example exactly once: the examples of
/// its training steps are the epoch's order, which holds each example once.
pub proof fn law_epoch_trains_every_example(
    plan: TrainPlan,
    trace: Seq<Progress>,
    actions: Seq<Action<Seq<bool>>>,
    example: usize,
)
    requires
        is_epoch(plan, trace, actions),
    ensures
        ({
            let seen = trained(actions);
            &&& seen == trace[0].order
            &&& seen.len() == plan.examples
            &&& seen.no_duplicates()
            &&& seen.contains(example) <==> example < plan.examples
        }),
{
    let last = trace.len() - 1;
    let order = trace[0].order;
    lemma_epoch_so_far(plan, trace, actions, last);
    assert(actions.take(last) =~= actions);
    assert(order.take(plan.examples as int) =~= order);
    if example < plan.examples {
        lemma_order_holds(order, plan.examples as int, example);
    }
    if order.contains(example) {
        let k = choose|k: int| 0 <= k < order.len() && order[k] == example;
        assert(order[k] < plan.examples);
    }
}

proof fn lemma_order_holds(order: Seq<usize>, n: int, example: usize)
    requires
        is_order(order, n),
        example < n,
    ensures
        order.contains(example),
{
    let ints = order.map_values(|x: usize| x as int);
    let range = vstd::set_lib::set_int_range(0, n);
    vstd::set_lib::lemma_int_range(0, n);
    assert(ints.no_duplicates()) by {
        assert forall|i: int, j: int|
            0 <= i < ints.len() && 0 <= j < ints.len() && i != j implies ints[i] != ints[j] by {
            assert(order[i] != order[j]);
        }
    }
    ints.unique_seq_to_set();
    let held = ints.to_set();
    assert(held.subset_of(range)) by {
        assert forall|x: int| held.contains(x) implies range.contains(x) by {
            let i = choose|i: int| 0 <= i < ints.len() && ints[i] == x;
            assert(order[i] < n);
        }
    }
    vstd::set_lib::lemma_subset_equality(held, range);
    assert(held.contains(example as int));
    let i = choose|i: int| 0 <= i < ints.len() && ints[i] == example as int;
    assert(order[i] == example);
}

/// What a training step holds. Its crop lies inside the images of its own
/// example, as large as the plan and the images allow; in a fine-tuning step it
/// is the crop drawn for the example, and the unlabelled scene has a crop of
/// its own, inside that scene's images. Fine-tuning takes place in alignment
/// training, in the last quarter of the epochs, where there are unlabelled
/// scenes. Only pairwise fusion samples predictions: one decision for each of
/// the example's rollout steps, and never for the first.
pub proof fn law_training_step_is_the_examples_own(
    plan: TrainPlan,
    s: Progress,
    w: int,
    h: int,
    limit: u64,
)
    requires
        progress_ok(plan, s),
        awaits_size(s),
        0 <= w <= usize::MAX,
        0 <= h <= usize::MAX,
    ensures
        ({
            let (t, a) = sized(plan, s, w, h, limit);
            let finetuning = plan.strategy == TrainStrategy::Align && plan.real_scenes > 0
                && plan.epochs - s.epoch <= plan.epochs / 4;
            &&& match s.stage {
                Stage::RealSize { crop, scene } => {
                    &&& a matches Action::Train(step)
                    &&& step.crop == crop
                    &&& step.real matches Some(other)
                    &&& other.0 == scene
                    &&& is_largest_crop(plan, other.1, w, h)
                    &&& step.use_prediction.len() == 0
                },
                _ => if finetuning {
                    &&& a is SizeReal
                    &&& t.stage matches Stage::RealSize { crop, scene }
                    &&& is_largest_crop(plan, crop, w, h)
                    &&& scene < plan.real_scenes
                } else {
                    &&& a matches Action::Train(step)
                    &&& is_largest_crop(plan, step.crop, w, h)
                    &&& step.real is None
                    &&& step.use_prediction.len() == (if plan.strategy == TrainStrategy::Pairwise {
                        plan.rollout@[s.order[s.position] as int] as int
                    } else {
                        0
                    })
                    &&& step.use_prediction.len() > 0 ==> !step.use_prediction[0]
                },
            }
            &&& a matches Action::Train(step) ==> step.rate == phase_at(
                s.step,
                plan.epochs * plan.examples,
                if plan.epochs * plan.examples >= 20 {
                    plan.epochs * plan.examples / 20
                } else {
                    1
                },
            )
        }),
{
    let (crop, x) = drawn_crop(w, h, plan.crop as int, s.rng);
    assert(is_largest_crop(plan, crop, w, h));
    if plan.strategy == TrainStrategy::Pairwise {
        let n = plan.rollout@[s.order[s.position] as int] as int;
        lemma_flags(x, n, limit);
    }
}

/// Whether a crop is a square inside an image of that size, with the plan's
/// side or, where that does not fit, the image's shorter side.
pub open spec fn is_largest_crop(plan: TrainPlan, crop: CropParams, w: int, h: int) -> bool {
    &&& crop.top + crop.size <= h
    &&& crop.left + crop.size <= w
    &&& crop.size <= plan.crop
    &&& crop.size == plan.crop || crop.size == w || crop.size == h
}

proof fn lemma_flags(x: u64, n: int, limit: u64)
    requires
        0 <= n,
    ensures
        sampling_flags(x, n, limit).0.len() == n,
        n > 0 ==> !sampling_flags(x, n, limit).0[0],
    decreases n,
{
    if n > 1 {
        lemma_flags(x, n - 1, limit);
    }
}

/// A finished step is reported as the next one of the run; it is logged every
/// 50 steps, and the rolling checkpoint is written every so many steps as the
/// plan says, counted from the start of training.
pub proof fn law_checkpoints_keep_their_distance(plan: TrainPlan, s: Progress)
    requires
        progress_ok(plan, s),
        s.stage == Stage::Step,
    ensures
        proceeded(plan, s).1 matches Action::Report { epoch, step, log, save, finetune } && {
            &&& step == s.step + 1
            &&& log <==> exists|k: int| s.step + 1 == #[trigger] (k * 50)
            &&& save <==> exists|k: int| s.step + 1 == #[trigger] (k * plan.ckpt_every)
            &&& finetune <==> plan.strategy == TrainStrategy::Align && plan.real_scenes > 0
                && plan.epochs - s.epoch <= plan.epochs / 4
        },
{
    lemma_epoch_product(plan.epochs as int, s.epoch, plan.examples as int);
    let step = s.step + 1;
    let every = plan.ckpt_every as int;
    vstd::arithmetic::div_mod::lemma_fundamental_div_mod(step, every);
    vstd::arithmetic::div_mod::lemma_fundamental_div_mod(step, 50);
    if step % every == 0 {
        assert(every * (step / every) == (step / every) * every) by (nonlinear_arith);
        assert(step == (step / every) * every);
    }
    if step % 50 == 0 {
        assert(step == (step / 50) * 50);
    }
    if exists|k: int| step == #[trigger] (k * plan.ckpt_every) {
        let k = choose|k: int| step == #[trigger] (k * plan.ckpt_every);
        vstd::arithmetic::div_mod::lemma_mod_multiples_basic(k, every);
    }
    if exists|k: int| step == #[trigger] (k * 50) {
        let k = choose|k: int| step == #[trigger] (k * 50);
        vstd::arithmetic::div_mod::lemma_mod_multiples_basic(k, 50);
    }
}

/// A training run.
#[derive(Debug)]
pub struct Trainer {
    pub plan: TrainPlan,
    pub epoch: usize,
    pub step: usize,
    pub position: usize,
    pub order: Vec<usize>,
    pub rng: Rng,
    pub stage: Stage,
}

impl View for Trainer {
    type V = Progress;

    open spec fn view(&self) -> Progress {
        Progress {
            epoch: self.epoch as int,
            step: self.step as int,
            position: self.position as int,
            order: self.order@,
            rng: self.rng.state,
            stage: self.stage,
        }
    }
}

impl View for Action<Vec<bool>> {
    type V = Action<Seq<bool>>;

    open spec fn view(&self) -> Action<Seq<bool>> {
        match *self {
            Action::SizeExample { epoch, example } => Action::SizeExample { epoch, example },
            Action::SizeReal { scene } => Action::SizeReal { scene },
            Action::Train(t) => Action::Train(
                TrainStep {
                    example: t.example,
                    crop: t.crop,
                    use_prediction: t.use_prediction@,
                    real: t.real,
                    rate: t.rate,
                },
            ),
            Action::Report { epoch, step, log, save, finetune } => Action::Report {
                epoch,
                step,
                log,
                save,
                finetune,
            },
            Action::EndEpoch { epoch, counted, next_epoch, step } => Action::EndEpoch {
                epoch,
                counted,
                next_epoch,
                step,
            },
            Action::Finish => Action::Finish,
        }
    }
}

impl Trainer {
    /// A run that starts, or goes on, at an epoch and a step.
    pub fn new(plan: TrainPlan, epoch: usize, step: usize) -> (r: Self)
        requires
            progress_ok(plan, started(plan, epoch as int, step as int)),
        ensures
            r.plan == plan,
            r@ == started(plan, epoch as int, step as int),
            progress_ok(r.plan, r@),
    {
        let seed: u64 = plan.seed.wrapping_add(step as u64);
        Trainer {
            plan,
            epoch,
            step,
            position: 0,
            order: Vec::new(),
            rng: Rng::new(seed),
            stage: Stage::Begin,
        }
    }

    fn finetunes_now(&self) -> (r: bool)
        ensures
            r == finetunes(self.plan, self.epoch as int),
    {
        self.plan.strategy == TrainStrategy::Align && self.plan.real_scenes > 0 && self.epoch
            >= finetune_start(self.plan.epochs)
    }

    fn rate(&self) -> (r: LrPhase)
        requires
            self.plan.is_wf(),
        ensures
            r == rate_of(self.plan, self.step as int),
    {
        let total: usize = self.plan.epochs * self.plan.examples;
        lr_phase(self.step, total, warmup_steps(total))
    }

    fn go_to_example(&mut self) -> (r: Action<Vec<bool>>)
        requires
            old(self).position < old(self).plan.examples ==> old(self).position < old(
                self,
            ).order@.len(),
            old(self).epoch < usize::MAX,
        ensures
            final(self).plan == old(self).plan,
            (final(self)@, r@) == to_example(old(self).plan, old(self)@),
    {
        if self.position < self.plan.examples {
            self.stage = Stage::ExampleSize;
            Action::SizeExample { epoch: self.epoch, example: self.order[self.position] }
        } else {
            self.stage = Stage::EpochReport;
            Action::EndEpoch {
                epoch: self.epoch,
                counted: self.position,
                next_epoch: self.epoch + 1,
                step: self.step,
            }
        }
    }

    fn go_to_epoch(&mut self) -> (r: Action<Vec<bool>>)
        requires
            old(self).plan.is_wf(),
        ensures
            final(self).plan == old(self).plan,
            (final(self)@, r@) == to_epoch(old(self).plan, old(self)@),
    {
        if self.epoch < self.plan.epochs {
            let n: usize = self.plan.examples;
            let mut order: Vec<usize> = Vec::new();
            let mut i: usize = 0;
            while i < n
                invariant
                    i <= n,
                    order@ == identity(i as nat),
                decreases n - i,
            {
                order.push(i);
                i = i + 1;
            }
            let mut rng = self.rng;
            rng.shuffle(&mut order);
            proof {
                lemma_shuffle_is_order(n as nat, self.rng.state);
            }
            self.rng = rng;
            self.order = order;
            self.position = 0;
            self.go_to_example()
        } else {
            self.stage = Stage::Over;
            Action::Finish
        }
    }

    /// What to do next, where no size is waited for.
    pub fn proceed(&mut self) -> (r: Action<Vec<bool>>)
        requires
            progress_ok(old(self).plan, old(self)@),
            !awaits_size(old(self)@),
        ensures
            final(self).plan == old(self).plan,
            progress_ok(final(self).plan, final(self)@),
            (final(self)@, r@) == proceeded(old(self).plan, old(self)@),
    {
        proof {
            law_steps_add_up(self.plan, self@, 0, 0, 0);
        }
        match self.stage {
            Stage::Begin => self.go_to_epoch(),
            Stage::Step => {
                proof {
                    lemma_epoch_product(
                        self.plan.epochs as int,
                        self.epoch as int,
                        self.plan.examples as int,
                    );
                }
                self.step = self.step + 1;
                self.position = self.position + 1;
                self.stage = Stage::Report;
                Action::Report {
                    epoch: self.epoch,
                    step: self.step,
                    log: self.step % LOG_EVERY == 0,
                    save: self.step % self.plan.ckpt_every == 0,
                    finetune: self.finetunes_now(),
                }
            },
            Stage::Report => self.go_to_example(),
            Stage::EpochReport => {
                self.epoch = self.epoch + 1;
                self.go_to_epoch()
            },
            _ => Action::Finish,
        }
    }

    /// What to do next, once the width and height that are waited for are
    /// known. `limit` is the epoch's sampling limit: a rollout step samples
    /// where a draw of 53 bits is below it.
    pub fn sized(&mut self, w: usize, h: usize, limit: u64) -> (r: Action<Vec<bool>>)
        requires
            progress_ok(old(self).plan, old(self)@),
            awaits_size(old(self)@),
            h - crop_side(w as int, h as int, old(self).plan.crop as int) < usize::MAX,
            w - crop_side(w as int, h as int, old(self).plan.crop as int) < usize::MAX,
        ensures
            final(self).plan == old(self).plan,
            progress_ok(final(self).plan, final(self)@),
            (final(self)@, r@) == sized(old(self).plan, old(self)@, w as int, h as int, limit),
    {
        proof {
            law_steps_add_up(self.plan, self@, w as int, h as int, limit);
        }
        let rate = self.rate();
        let mut rng = self.rng;
        let crop = random_crop_dims(w, h, self.plan.crop, &mut rng);
        let example: usize = self.order[self.position];
        match self.stage {
            Stage::RealSize { crop: first, scene } => {
                self.rng = rng;
                self.stage = Stage::Step;
                Action::Train(
                    TrainStep {
                        example,
                        crop: first,
                        use_prediction: Vec::new(),
                        real: Some((scene, crop)),
                        rate,
                    },
                )
            },
            _ => if self.finetunes_now() {
                let scene: usize = rng.below(self.plan.real_scenes);
                self.rng = rng;
                self.stage = Stage::RealSize { crop, scene };
                Action::SizeReal { scene }
            } else {
                let n: usize = if self.plan.strategy == TrainStrategy::Pairwise {
                    self.plan.rollout[example]
                } else {
                    0
                };
                let use_prediction = rng.sample_steps(n, limit);
                self.rng = rng;
                self.stage = Stage::Step;
                Action::Train(TrainStep { example, crop, use_prediction, real: None, rate })
            },
        }
    }
}

/// Where a crop lies is drawn: its row by the first draw and its column by the
/// second, each anywhere from the image's edge to where the crop still fits.
pub proof fn law_crop_is_drawn(w: int, h: int, max_size: int, x: u64)
    requires
        0 <= w <= usize::MAX,
        0 <= h <= usize::MAX,
        0 <= max_size <= usize::MAX,
    ensures
        ({
            let (crop, y) = drawn_crop(w, h, max_size, x);
            &&& crop.top == output_of(after_draws(x, 1)) as int % (h - crop.size + 1)
            &&& crop.left == output_of(after_draws(x, 2)) as int % (w - crop.size + 1)
            &&& y == after_draws(x, 2)
            &&& crop.size <= w && crop.size <= h && crop.size <= max_size
            &&& crop.size == w || crop.size == h || crop.size == max_size
        }),
{
    let size = crop_side(w, h, max_size);
    law_bounded_number_takes_one_draw(x, h - size + 1);
    law_bounded_number_takes_one_draw(after_draws(x, 1), w - size + 1);
    law_draws_follow_on(x, 1, 1);
}

/// What is drawn when a size is known, in order: the crop's two places, then
/// the unlabelled scene where there is one to choose, or the decision of each
/// rollout step but the first. Nothing else is drawn.
pub proof fn law_step_draws_what_it_needs(
    plan: TrainPlan,
    s: Progress,
    w: int,
    h: int,
    limit: u64,
    k: int,
)
    requires
        progress_ok(plan, s),
        awaits_size(s),
        0 <= w <= usize::MAX,
        0 <= h <= usize::MAX,
    ensures
        ({
            let (t, a) = sized(plan, s, w, h, limit);
            let crop = drawn_crop(w, h, plan.crop as int, s.rng).0;
            match a {
                Action::SizeReal { scene } => {
                    &&& scene == output_of(after_draws(s.rng, 3)) as int % (plan.real_scenes as int)
                    &&& t.rng == after_draws(s.rng, 3)
                    &&& t.stage == (Stage::RealSize { crop, scene })
                },
                Action::Train(step) => {
                    let n = step.use_prediction.len();
                    &&& t.rng == after_draws(
                        s.rng,
                        if n > 0 {
                            n as int + 1
                        } else {
                            2
                        },
                    )
                    &&& 0 < k < n ==> step.use_prediction[k] == (output_of(
                        after_draws(s.rng, k + 2),
                    ) >> 11 < limit)
                    &&& s.stage is RealSize ==> step.real is Some && (step.real->0).1 == crop
                    &&& s.stage is ExampleSize ==> step.crop == crop
                },
                _ => false,
            }
        }),
{
    let x = s.rng;
    law_crop_is_drawn(w, h, plan.crop as int, x);
    let y = after_draws(x, 2);
    law_bounded_number_takes_one_draw(y, plan.real_scenes as int);
    law_draws_follow_on(x, 2, 1);
    if plan.strategy == TrainStrategy::Pairwise {
        let n = plan.rollout@[s.order[s.position] as int] as int;
        if n > 0 {
            law_each_step_draws_its_decision(y, n, limit, if 0 < k < n { k } else { 0 });
            law_draws_follow_on(x, 2, n - 1);
            if 0 < k < n {
                law_draws_follow_on(x, 2, k);
            }
        }
    }
}

/// An epoch's order is drawn: the example visited last is named by the first
/// draw among all examples, and there is a draw for each place but the first.
pub proof fn law_epoch_order_is_drawn(plan: TrainPlan, s: Progress)
    requires
        s.stage == Stage::Begin || s.stage == Stage::EpochReport,
        (if s.stage == Stage::Begin { s.epoch } else { s.epoch + 1 }) < plan.epochs,
        plan.examples >= 2,
    ensures
        ({
            let t = proceeded(plan, s).0;
            let n = plan.examples as int;
            &&& t.order.len() == n
            &&& t.order[n - 1] == output_of(after_draws(s.rng, 1)) as int % n
            &&& t.rng == after_draws(s.rng, n - 1)
        }),
{
    let n = plan.examples as int;
    law_shuffle_draws_every_place(identity(n as nat), s.rng, n - 1, n);
    let j = output_of(after_draws(s.rng, 1)) as int % n;
    assert(identity(n as nat)[j] == j);
}

/// A run starts at the epoch and step that it is given, before its first
/// example, from the plan's seed moved on by the steps that have been taken:
/// a resumed run draws anew.
pub proof fn law_run_starts_from_its_seed(plan: TrainPlan, epoch: int, step: int)
    ensures
        started(plan, epoch, step).epoch == epoch,
        started(plan, epoch, step).step == step,
        started(plan, epoch, step).position == 0,
        started(plan, epoch, step).stage == Stage::Begin,
        started(plan, epoch, step).rng ^ 0x9e37_79b9_7f4a_7c15 == plan.seed.wrapping_add(
            step as u64,
        ),
{
    let x = plan.seed.wrapping_add(step as u64);
    assert((x ^ 0x9e37_79b9_7f4a_7c15) ^ 0x9e37_79b9_7f4a_7c15 == x) by (bit_vector);
}

/// A trainer that has learned a size trains on the example whose turn it is, or
/// asks for an unlabelled scene first; the plan, the epoch's order and the
/// position stay.
pub proof fn law_trainer_trains_on_the_turn(
    run: &mut Trainer,
    w: usize,
    h: usize,
    limit: u64,
    r: Action<Vec<bool>>,
)
    requires
        progress_ok(old(run).plan, old(run)@),
        awaits_size(old(run)@),
        call_ensures(Trainer::sized, (run, w, h, limit), r),
    ensures
        r is Train || r is SizeReal,
        r matches Action::Train(step) ==> step.example == old(run).order@[old(run).position as int]
            && final(run).stage == Stage::Step,
        final(run).plan == old(run).plan,
        final(run).order@ == old(run).order@,
        final(run).position == old(run).position,
        final(run).epoch == old(run).epoch,
        final(run).step == old(run).step,
{
    let s = old(run)@;
    let (t, a) = sized(old(run).plan, s, w as int, h as int, limit);
    assert(may_act(old(run).plan, s, t, a));
    law_every_action_is_about_the_turn(old(run).plan, s, t, a);
    assert(final(run)@ == t && r@ == a);
}

/// A trainer that goes on asks for the size of the example whose turn it is,
/// reports the step it has just taken, ends the epoch once all examples had
/// their turn, or ends the run.
pub proof fn law_trainer_goes_on_in_order(run: &mut Trainer, r: Action<Vec<bool>>)
    requires
        progress_ok(old(run).plan, old(run)@),
        !awaits_size(old(run)@),
        call_ensures(Trainer::proceed, (run,), r),
    ensures
        final(run).plan == old(run).plan,
        match r {
            Action::SizeExample { epoch, example } => {
                &&& final(run).position < final(run).plan.examples
                &&& example == final(run).order@[final(run).position as int]
                &&& epoch == final(run).epoch
            },
            Action::Report { epoch, step, .. } => {
                &&& old(run).stage == Stage::Step
                &&& step == old(run).step + 1 && step == final(run).step
                &&& final(run).position == old(run).position + 1
                &&& epoch == old(run).epoch
            },
            Action::EndEpoch { epoch, counted, next_epoch, step } => {
                &&& counted == final(run).plan.examples
                &&& epoch == final(run).epoch && next_epoch == epoch + 1
                &&& step == old(run).step
            },
            Action::Finish => final(run).stage == Stage::Over,
            _ => false,
        },
{
    let s = old(run)@;
    let (t, a) = proceeded(old(run).plan, s);
    assert(may_act(old(run).plan, s, t, a));
    law_every_action_is_about_the_turn(old(run).plan, s, t, a);
    assert(final(run)@ == t && r@ == a);
}

} // verus!
