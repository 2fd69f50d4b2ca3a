//! Ground-truth composites of a focus stack's first frames.
//!
//! In-focus weights travel as bit patterns of single-precision floats.

use vstd::prelude::*;
use crate::order::{float_gt, greater, is_nan, rank};

verus! {

/// The weight above which a pixel counts as in focus: the bit pattern of 0.1.
pub const IN_FOCUS: u32 = 0x3dcc_cccd;

/// The frame with the highest weight at a pixel among the first `included`,
/// and that weight: the first such frame, or frame 0 with weight zero where no
/// weight is positive.
pub open spec fn best_focus(masks: Seq<Vec<u32>>, px: int, included: int) -> (int, u32)
    decreases included,
{
    if included <= 0 {
        (0, 0)
    } else {
        let prior = best_focus(masks, px, included - 1);
        let v = masks[included - 1]@[px];
        if float_gt(v, prior.1) {
            (included - 1, v)
        } else {
            prior
        }
    }
}

/// The composite of the first `included` frames, stored plane by plane: the
/// all-in-focus image wherever one of them is in focus, and the frame with the
/// highest weight elsewhere.
pub open spec fn composite<T>(
    frames: Seq<Vec<T>>,
    masks: Seq<Vec<u32>>,
    allfocus: Seq<T>,
    included: int,
    np: int,
    threshold: u32,
) -> Seq<T> {
    Seq::new(
        (3 * np) as nat,
        |k: int|
            {
                let best = best_focus(masks, k % np, included);
                if float_gt(best.1, threshold) {
                    allfocus[k]
                } else {
                    frames[best.0]@[k]
                }
            },
    )
}

/// Per-pixel highest weight among the first `included` frames.
pub open spec fn confidence(masks: Seq<Vec<u32>>, included: int, np: int) -> Seq<u32> {
    Seq::new(np as nat, |px: int| best_focus(masks, px, included).1)
}

proof fn lemma_best_in_range(masks: Seq<Vec<u32>>, px: int, included: int)
    ensures
        0 <= best_focus(masks, px, included).0,
        included >= 1 ==> best_focus(masks, px, included).0 < included,
    decreases included,
{
    if included > 0 {
        lemma_best_in_range(masks, px, included - 1);
    }
}

fn best_at(masks: &Vec<Vec<u32>>, px: usize, included: usize) -> (r: (usize, u32))
    requires
        included <= masks@.len(),
        forall|i: int| 0 <= i < included ==> px < (#[trigger] masks@[i])@.len(),
    ensures
        (r.0 as int, r.1) == best_focus(masks@, px as int, included as int),
{
    let mut best: usize = 0;
    let mut value: u32 = 0;
    let mut i: usize = 0;
    while i < included
        invariant
            i <= included <= masks@.len(),
            forall|j: int| 0 <= j < included ==> px < (#[trigger] masks@[j])@.len(),
            (best as int, value) == best_focus(masks@, px as int, i as int),
        decreases included - i,
    {
        assert(px < masks@[i as int]@.len());
        let v: u32 = masks[i][px];
        if greater(v, value) {
            best = i;
            value = v;
        }
        i = i + 1;
    }
    (best, value)
}

/// Per-pixel highest weight among the first `included` frames.
pub fn prefix_confidence(masks: &Vec<Vec<u32>>, included: usize, np: usize) -> (r: Vec<u32>)
    requires
        included <= masks@.len(),
        forall|i: int| 0 <= i < included ==> np <= (#[trigger] masks@[i])@.len(),
    ensures
        r@ == confidence(masks@, included as int, np as int),
{
    let mut out: Vec<u32> = Vec::new();
    let mut px: usize = 0;
    while px < np
        invariant
            px <= np,
            included <= masks@.len(),
            forall|i: int| 0 <= i < included ==> np <= (#[trigger] masks@[i])@.len(),
            out@.len() == px,
            forall|q: int|
                0 <= q < px ==> #[trigger] out@[q] == best_focus(masks@, q, included as int).1,
        decreases np - px,
    {
        let (_, v) = best_at(masks, px, included);
        out.push(v);
        px = px + 1;
    }
    assert(out@ =~= confidence(masks@, included as int, np as int));
    out
}

/// Builds the ground-truth composite of the first `included` frames of size
/// `h` x `w`; the frames and their weights are given in merge order.
pub fn prefix_composite<T: Copy>(
    frames: &Vec<Vec<T>>,
    masks: &Vec<Vec<u32>>,
    allfocus: &Vec<T>,
    included: usize,
    h: usize,
    w: usize,
    threshold: u32,
) -> (r: Vec<T>)
    requires
        1 <= included <= frames@.len(),
        masks@.len() == frames@.len(),
        3 * (h * w) <= allfocus@.len(),
        forall|i: int| 0 <= i < included ==> 3 * (h * w) <= (#[trigger] frames@[i])@.len(),
        forall|i: int| 0 <= i < included ==> h * w <= (#[trigger] masks@[i])@.len(),
    ensures
        r@ == composite(
            frames@,
            masks@,
            allfocus@,
            included as int,
            h * w,
            threshold,
        ),
{
    let limit: usize = allfocus.len();
    proof {
        assert(0 <= h * w) by (nonlinear_arith)
            requires
                0 <= h,
                0 <= w,
        ;
    }
    let np: usize = h * w;
    let mut picks: Vec<(usize, bool)> = Vec::new();
    let mut px: usize = 0;
    while px < np
        invariant
            px <= np,
            np == h * w,
            1 <= included <= frames@.len(),
            masks@.len() == frames@.len(),
            forall|i: int| 0 <= i < included ==> h * w <= (#[trigger] masks@[i])@.len(),
            picks@.len() == px,
            forall|q: int|
                0 <= q < px ==> {
                    let best = best_focus(masks@, q, included as int);
                    (#[trigger] picks@[q]).0 == best.0 && picks@[q].1 == float_gt(best.1, threshold)
                },
        decreases np - px,
    {
        let (best, value) = best_at(masks, px, included);
        picks.push((best, greater(value, threshold)));
        px = px + 1;
    }
    let mut out: Vec<T> = Vec::new();
    let mut plane: usize = 0;
    while plane < 3
        invariant
            plane <= 3,
            np == h * w,
            limit == allfocus@.len(),
            1 <= included <= frames@.len(),
            masks@.len() == frames@.len(),
            3 * np <= allfocus@.len(),
            forall|i: int| 0 <= i < included ==> 3 * (h * w) <= (#[trigger] frames@[i])@.len(),
            picks@.len() == np,
            forall|q: int|
                0 <= q < np ==> {
                    let best = best_focus(masks@, q, included as int);
                    (#[trigger] picks@[q]).0 == best.0 && picks@[q].1 == float_gt(best.1, threshold)
                },
            out@.len() == plane * np,
            forall|k: int|
                0 <= k < out@.len() ==> #[trigger] out@[k] == composite(
                    frames@,
                    masks@,
                    allfocus@,
                    included as int,
                    np as int,
                    threshold,
                )[k],
        decreases 3 - plane,
    {
        let mut px: usize = 0;
        while px < np
            invariant
                px <= np,
                plane < 3,
                np == h * w,
                limit == allfocus@.len(),
                1 <= included <= frames@.len(),
                masks@.len() == frames@.len(),
                3 * np <= allfocus@.len(),
                forall|i: int| 0 <= i < included ==> 3 * (h * w) <= (#[trigger] frames@[i])@.len(),
                picks@.len() == np,
                forall|q: int|
                    0 <= q < np ==> {
                        let best = best_focus(masks@, q, included as int);
                        (#[trigger] picks@[q]).0 == best.0 && picks@[q].1 == float_gt(
                            best.1,
                            threshold,
                        )
                    },
                out@.len() == plane * np + px,
                forall|k: int|
                    0 <= k < out@.len() ==> #[trigger] out@[k] == composite(
                        frames@,
                        masks@,
                        allfocus@,
                        included as int,
                        np as int,
                        threshold,
                    )[k],
            decreases np - px,
        {
            proof {
                lemma_best_in_range(masks@, px as int, included as int);
                vstd::arithmetic::div_mod::lemma_fundamental_div_mod_converse(
                    plane * np + px,
                    np as int,
                    plane as int,
                    px as int,
                );
                assert(plane * np + np <= 3 * np) by (nonlinear_arith)
                    requires
                        plane <= 2,
                        0 <= np,
                ;
                assert(0 <= plane * np) by (nonlinear_arith)
                    requires
                        0 <= plane,
                        0 <= np,
                ;
                assert(picks@[px as int].0 == best_focus(masks@, px as int, included as int).0);
                assert(3 * (h * w) <= frames@[picks@[px as int].0 as int]@.len());
            }
            let k: usize = plane * np + px;
            let (best, focused) = picks[px];
            if focused {
                out.push(allfocus[k]);
            } else {
                out.push(frames[best][k]);
            }
            px = px + 1;
        }
        proof {
            assert((plane + 1) * np == plane * np + np) by (nonlinear_arith);
        }
        plane = plane + 1;
    }
    assert(out@ =~= composite(
        frames@,
        masks@,
        allfocus@,
        included as int,
        np as int,
        threshold,
    ));
    out
}

/// The chosen weight is the highest: no frame among the first `included` has a
/// greater weight at the pixel, and it is never negative.
pub proof fn law_best_is_highest(masks: Seq<Vec<u32>>, px: int, included: int, i: int)
    requires
        0 <= i < included,
    ensures
        !float_gt(masks[i]@[px], best_focus(masks, px, included).1),
        !is_nan(best_focus(masks, px, included).1),
        rank(best_focus(masks, px, included).1) >= 0,
    decreases included,
{
    lemma_best_is_number(masks, px, included);
    let prior = best_focus(masks, px, included - 1);
    lemma_best_is_number(masks, px, included - 1);
    if i < included - 1 {
        law_best_is_highest(masks, px, included - 1, i);
    }
}

proof fn lemma_best_is_number(masks: Seq<Vec<u32>>, px: int, included: int)
    ensures
        !is_nan(best_focus(masks, px, included).1),
        rank(best_focus(masks, px, included).1) >= 0,
    decreases included,
{
    if included > 0 {
        lemma_best_is_number(masks, px, included - 1);
    }
}

/// Confidence never falls as frames are merged in: including one frame more
/// leaves no pixel with a lower weight.
pub proof fn law_confidence_grows(masks: Seq<Vec<u32>>, px: int, included: int)
    requires
        0 <= included,
    ensures
        rank(best_focus(masks, px, included + 1).1) >= rank(best_focus(masks, px, included).1),
{
    lemma_best_is_number(masks, px, included);
}

proof fn lemma_best_of_prefix(masks: Seq<Vec<u32>>, px: int, included: int, n: int)
    requires
        0 <= included <= n <= masks.len(),
    ensures
        best_focus(masks.take(n), px, included) == best_focus(masks, px, included),
    decreases included,
{
    if included > 0 {
        lemma_best_of_prefix(masks, px, included - 1, n);
    }
}

/// The composite of the first `included` frames depends on those frames
/// alone: the target of a rollout step is the ground truth of the step before.
pub proof fn law_composite_of_prefix<T>(
    frames: Seq<Vec<T>>,
    masks: Seq<Vec<u32>>,
    allfocus: Seq<T>,
    included: int,
    n: int,
    np: int,
    threshold: u32,
)
    requires
        1 <= included <= n <= frames.len(),
        masks.len() == frames.len(),
        0 <= np,
    ensures
        composite(frames.take(n), masks.take(n), allfocus, included, np, threshold) == composite(
            frames,
            masks,
            allfocus,
            included,
            np,
            threshold,
        ),
{
    let a = composite(frames.take(n), masks.take(n), allfocus, included, np, threshold);
    let b = composite(frames, masks, allfocus, included, np, threshold);
    assert forall|k: int| 0 <= k < a.len() implies a[k] == b[k] by {
        lemma_best_of_prefix(masks, k % np, included, n);
        lemma_best_in_range(masks, k % np, included);
    }
    assert(a =~= b);
}

/// The confidence of the first `included` frames depends on those frames
/// alone.
pub proof fn law_confidence_of_prefix(masks: Seq<Vec<u32>>, included: int, n: int, np: int)
    requires
        0 <= included <= n <= masks.len(),
    ensures
        confidence(masks.take(n), included, np) == confidence(masks, included, np),
{
    let a = confidence(masks.take(n), included, np);
    let b = confidence(masks, included, np);
    assert forall|px: int| 0 <= px < a.len() implies a[px] == b[px] by {
        lemma_best_of_prefix(masks, px, included, n);
    }
    assert(a =~= b);
}

/// The confidence of a pixel is attained: it is the weight of one of the
/// frames, or zero where no weight is positive.
pub proof fn law_confidence_is_a_weight(masks: Seq<Vec<u32>>, px: int, included: int)
    ensures
        ({
            let best = best_focus(masks, px, included);
            ||| best == (0int, 0u32) && forall|i: int|
                0 <= i < included ==> !float_gt((#[trigger] masks[i])@[px], 0)
            ||| 0 <= best.0 < included && best.1 == masks[best.0]@[px] && float_gt(best.1, 0)
        }),
    decreases included,
{
    if included > 0 {
        law_confidence_is_a_weight(masks, px, included - 1);
        lemma_best_is_number(masks, px, included - 1);
    }
}

proof fn lemma_unique_best(masks: Seq<Vec<u32>>, px: int, included: int, b: int)
    requires
        0 <= b < included,
        float_gt(masks[b]@[px], 0),
        forall|j: int|
            0 <= j < included && j != b ==> float_gt(masks[b]@[px], (#[trigger] masks[j])@[px]) || (j
                > b && !float_gt(masks[j]@[px], masks[b]@[px])),
    ensures
        best_focus(masks, px, included) == (b, masks[b]@[px]),
    decreases included,
{
    let prior = best_focus(masks, px, included - 1);
    lemma_best_is_number(masks, px, included - 1);
    law_confidence_is_a_weight(masks, px, included - 1);
    if b == included - 1 {
        if prior.1 != 0 {
            assert(float_gt(masks[b]@[px], masks[prior.0]@[px]));
        }
    } else {
        lemma_unique_best(masks, px, included - 1, b);
        let j = included - 1;
        assert(!float_gt(masks[j]@[px], masks[b]@[px]));
    }
}

/// What the composite of the first `included` frames shows at a sample: the
/// all-in-focus image where the weight of one of them is above the threshold;
/// elsewhere the frame whose weight is the highest, the first of them where
/// several are equal, and the first frame where no weight is positive. Frames
/// that are not included do not matter.
pub proof fn law_composite_shows_the_sharpest<T>(
    frames: Seq<Vec<T>>,
    masks: Seq<Vec<u32>>,
    allfocus: Seq<T>,
    included: int,
    np: int,
    threshold: u32,
    k: int,
    b: int,
)
    requires
        0 <= b < included,
        0 <= k < 3 * np,
        !is_nan(threshold),
        rank(threshold) >= 0,
    ensures
        composite(frames, masks, allfocus, included, np, threshold).len() == 3 * np,
        ({
            let px = k % np;
            let shown = composite(frames, masks, allfocus, included, np, threshold)[k];
            let focused = exists|i: int|
                0 <= i < included && float_gt((#[trigger] masks[i])@[px], threshold);
            &&& focused ==> shown == allfocus[k]
            &&& !focused && float_gt(masks[b]@[px], 0) && (forall|j: int|
                0 <= j < included && j != b ==> float_gt(
                    masks[b]@[px],
                    (#[trigger] masks[j])@[px],
                ) || (j > b && !float_gt(masks[j]@[px], masks[b]@[px]))) ==> shown == frames[b]@[k]
            &&& !focused && (forall|j: int|
                0 <= j < included ==> !float_gt((#[trigger] masks[j])@[px], 0)) ==> shown
                == frames[0]@[k]
        }),
{
    let px = k % np;
    let best = best_focus(masks, px, included);
    lemma_best_is_number(masks, px, included);
    law_confidence_is_a_weight(masks, px, included);
    let focused = exists|i: int|
        0 <= i < included && float_gt((#[trigger] masks[i])@[px], threshold);
    if focused {
        let i = choose|i: int|
            0 <= i < included && float_gt((#[trigger] masks[i])@[px], threshold);
        law_best_is_highest(masks, px, included, i);
        assert(float_gt(best.1, threshold));
    } else {
        if float_gt(best.1, threshold) {
            assert(float_gt(masks[best.0]@[px], threshold));
        }
        if float_gt(masks[b]@[px], 0) && (forall|j: int|
            0 <= j < included && j != b ==> float_gt(masks[b]@[px], (#[trigger] masks[j])@[px]) || (j
                > b && !float_gt(masks[j]@[px], masks[b]@[px]))) {
            lemma_unique_best(masks, px, included, b);
        }
        if forall|j: int| 0 <= j < included ==> !float_gt((#[trigger] masks[j])@[px], 0) {
            if best != (0int, 0u32) {
                assert(!float_gt(masks[best.0]@[px], 0));
            }
        }
    }
}

} // verus!
