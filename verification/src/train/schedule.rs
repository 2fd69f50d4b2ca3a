//! Schedules: the learning rate's phase, scheduled sampling, and the targets
//! of a rollout.

use vstd::prelude::*;

verus! {

/// Where the learning rate stands, as the part of the base rate that is used.
#[derive(Debug, Clone, Copy, PartialEq, Eq, Structural)]
pub enum LrPhase {
    /// The base rate itself.
    Base,
    /// The fraction `num / den` of the base rate.
    Warmup { num: usize, den: usize },
    /// The half cosine at `num / den` of its way from one to zero.
    Cosine { num: usize, den: usize },
}

/// The learning rate's phase at a step: a linear rise over the warm-up steps,
/// then a half cosine that ends at the last step.
pub open spec fn phase_at(step: int, total: int, warmup: int) -> LrPhase {
    if total == 0 {
        LrPhase::Base
    } else if step < warmup {
        LrPhase::Warmup { num: (step + 1) as usize, den: warmup as usize }
    } else {
        let den = if total - warmup >= 1 {
            total - warmup
        } else {
            1
        };
        let num = if step - warmup <= den {
            step - warmup
        } else {
            den
        };
        LrPhase::Cosine { num: num as usize, den: den as usize }
    }
}

/// The learning rate's phase at a step.
pub fn lr_phase(step: usize, total: usize, warmup: usize) -> (r: LrPhase)
    requires
        total > 0 && step >= warmup ==> warmup <= total,
    ensures
        r == phase_at(step as int, total as int, warmup as int),
{
    if total == 0 {
        return LrPhase::Base;
    }
    if step < warmup {
        return LrPhase::Warmup { num: step + 1, den: warmup };
    }
    let left: usize = total - warmup;
    let den: usize = if left >= 1 {
        left
    } else {
        1
    };
    let gone: usize = step - warmup;
    let num: usize = if gone <= den {
        gone
    } else {
        den
    };
    LrPhase::Cosine { num, den }
}

/// The number of warm-up steps: a twentieth of all, and at least one.
pub open spec fn warmup_of(total: int) -> int {
    if total / 20 >= 1 {
        total / 20
    } else {
        1
    }
}

/// The number of warm-up steps of a run.
pub fn warmup_steps(total: usize) -> (r: usize)
    ensures
        r == warmup_of(total as int),
{
    let w: usize = total / 20;
    if w >= 1 {
        w
    } else {
        1
    }
}

/// The rate's fraction lies between zero and one, and its denominator is
/// positive.
pub proof fn law_rate_is_a_part_of_the_base(step: int, total: int, warmup: int)
    requires
        0 <= step <= usize::MAX,
        0 <= warmup <= usize::MAX,
        0 <= total <= usize::MAX,
    ensures
        match phase_at(step, total, warmup) {
            LrPhase::Base => total == 0,
            LrPhase::Warmup { num, den } => 1 <= num <= den,
            LrPhase::Cosine { num, den } => num <= den && 1 <= den,
        },
{
}

/// The rate rises all through the warm-up and is the base rate at its end; the
/// cosine then never turns back, starts at the base rate and is at its end at
/// the last of the steps.
pub proof fn law_rate_rises_and_falls(step: int, total: int, warmup: int)
    requires
        0 <= step < usize::MAX,
        1 <= warmup < total <= usize::MAX,
    ensures
        phase_at(warmup - 1, total, warmup) == (LrPhase::Warmup {
            num: warmup as usize,
            den: warmup as usize,
        }),
        phase_at(warmup, total, warmup) == (LrPhase::Cosine {
            num: 0,
            den: (total - warmup) as usize,
        }),
        phase_at(total, total, warmup) == (LrPhase::Cosine {
            num: (total - warmup) as usize,
            den: (total - warmup) as usize,
        }),
        match (phase_at(step, total, warmup), phase_at(step + 1, total, warmup)) {
            (
                LrPhase::Warmup { num: a, den: c },
                LrPhase::Warmup { num: b, den: d },
            ) => b == a + 1 && c == d,
            (LrPhase::Warmup { num: a, den: c }, LrPhase::Cosine { num: b, den: d }) => a == c && b
                == 0,
            (
                LrPhase::Cosine { num: a, den: c },
                LrPhase::Cosine { num: b, den: d },
            ) => c == d && b == (if a < c {
                a + 1
            } else {
                a as int
            }),
            _ => false,
        },
{
}

/// How often a rollout step is fed the model's own prediction.
#[derive(Debug, Clone, Copy, PartialEq, Eq, Structural)]
pub enum SamplingPhase {
    /// Never.
    Never,
    /// In the part `num / den` of the highest probability, and never more
    /// often than that probability.
    Ramp { num: usize, den: usize },
}

/// The sampling phase of an epoch: a linear ramp from none at the first epoch
/// to all of the highest probability at the last.
pub fn sampling_phase(epoch: usize, total_epochs: usize) -> (r: SamplingPhase)
    ensures
        total_epochs <= 1 ==> r == SamplingPhase::Never,
        total_epochs > 1 ==> r == (SamplingPhase::Ramp {
            num: epoch,
            den: (total_epochs - 1) as usize,
        }),
{
    if total_epochs <= 1 {
        SamplingPhase::Never
    } else {
        SamplingPhase::Ramp { num: epoch, den: total_epochs - 1 }
    }
}

/// What a rollout step continues from.
#[derive(Debug, Clone, Copy, PartialEq, Eq, Structural)]
pub enum Feed {
    /// The composite of the training data.
    GroundTruth,
    /// The model's own last prediction.
    Prediction,
}

/// What step `k` of a rollout continues from: the first step always from the
/// training data.
pub open spec fn feed_at(use_prediction: Seq<bool>, k: int) -> Feed {
    if k > 0 && use_prediction[k] {
        Feed::Prediction
    } else {
        Feed::GroundTruth
    }
}

/// What each step of a rollout continues from.
pub fn rollout_feeds(steps: usize, use_prediction: &Vec<bool>) -> (r: Vec<Feed>)
    requires
        steps > 0,
        use_prediction@.len() == steps,
    ensures
        r@ == Seq::new(steps as nat, |k: int| feed_at(use_prediction@, k)),
{
    let mut out: Vec<Feed> = Vec::new();
    let mut k: usize = 0;
    while k < steps
        invariant
            k <= steps,
            use_prediction@.len() == steps,
            out@ == Seq::new(k as nat, |i: int| feed_at(use_prediction@, i)),
        decreases steps - k,
    {
        if k > 0 && use_prediction[k] {
            out.push(Feed::Prediction);
        } else {
            out.push(Feed::GroundTruth);
        }
        k = k + 1;
    }
    out
}

/// The warm-up takes up a twentieth of the steps, rounded down, and one step
/// of a run that is shorter than twenty.
pub proof fn law_warmup_is_a_twentieth(total: int)
    requires
        0 <= total,
    ensures
        1 <= warmup_of(total),
        total >= 20 ==> 20 * warmup_of(total) <= total < 20 * (warmup_of(total) + 1),
        total < 20 ==> warmup_of(total) == 1,
{
}

/// Sampling starts from nothing at the first epoch, rises by the same part
/// with every epoch, and is at its highest at the last. A run of one epoch
/// never samples.
pub proof fn law_sampling_rises_to_the_highest(
    epoch: usize,
    total_epochs: usize,
    r: SamplingPhase,
    next: SamplingPhase,
)
    requires
        epoch + 1 < total_epochs,
        call_ensures(sampling_phase, (epoch, total_epochs), r),
        call_ensures(sampling_phase, ((epoch + 1) as usize, total_epochs), next),
    ensures
        match (r, next) {
            (
                SamplingPhase::Ramp { num: a, den: c },
                SamplingPhase::Ramp { num: b, den: d },
            ) => {
                &&& c == d && c > 0
                &&& b == a + 1
                &&& epoch == 0 ==> a == 0
                &&& epoch + 2 == total_epochs ==> b == d
            },
            _ => false,
        },
{
}

/// A rollout starts from the training data, and goes on from the model's own
/// prediction in the steps that are marked, and in no others.
pub proof fn law_only_marked_steps_feed_predictions(
    steps: usize,
    use_prediction: Vec<bool>,
    r: Vec<Feed>,
    k: int,
)
    requires
        call_ensures(rollout_feeds, (steps, &use_prediction), r),
        0 <= k < steps,
    ensures
        r@.len() == steps,
        r@[0] == Feed::GroundTruth,
        k > 0 ==> (r@[k] == Feed::Prediction <==> use_prediction@[k]),
{
}

} // verus!
