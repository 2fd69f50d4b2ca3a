//! Sampling for the depth threshold that all tiles of a run share.

use vstd::prelude::*;
use crate::grid::{cell, lemma_index_cell};
use crate::order::{
    float_gt, is_kth_smallest, is_nan, is_positive, kth_smallest, law_rank_is_place_in_order,
    law_ranks_ascend, positive, rank,
};

verus! {

/// Number of samples a run aims to collect at most.
pub const MAX_SAMPLE: usize = 4_000_000;

/// Distance between sampled pixels in an image of that size.
pub open spec fn stride_of(pixels: int) -> int {
    if pixels / (MAX_SAMPLE as int) >= 1 {
        pixels / (MAX_SAMPLE as int)
    } else {
        1
    }
}

/// Distance between sampled pixels: one, or as many as it takes to collect
/// about [`MAX_SAMPLE`] values from the whole image.
pub fn sample_stride(img_w: usize, img_h: usize) -> (r: usize)
    requires
        img_w * img_h <= usize::MAX,
    ensures
        r == stride_of(img_w * img_h),
        r >= 1,
{
    let pixels: usize = img_w * img_h;
    let stride: usize = pixels / MAX_SAMPLE;
    if stride >= 1 {
        stride
    } else {
        1
    }
}

/// Every `stride`-th value of a region of a grid, row by row from its first
/// value on. The region starts at `(off_x, off_y)` and is `w` x `h` large.
pub open spec fn region_samples<T>(
    grid: Seq<T>,
    grid_w: int,
    off_x: int,
    off_y: int,
    w: int,
    h: int,
    stride: int,
) -> Seq<T> {
    Seq::new(
        ((w * h + stride - 1) / stride) as nat,
        |k: int| cell(grid, grid_w, off_y + (k * stride) / w, off_x + (k * stride) % w),
    )
}

/// Appends every `stride`-th value of a region to the sample.
pub fn sample_region<T: Copy>(
    sample: &mut Vec<T>,
    grid: &[T],
    grid_w: usize,
    off_x: usize,
    off_y: usize,
    w: usize,
    h: usize,
    stride: usize,
)
    requires
        stride >= 1,
        w * h <= usize::MAX,
        w > 0 && h > 0 ==> off_y + h - 1 <= usize::MAX,
        w > 0 && h > 0 ==> (off_y + h - 1) * grid_w + off_x + w <= grid@.len(),
    ensures
        final(sample)@ == old(sample)@ + region_samples(
            grid@,
            grid_w as int,
            off_x as int,
            off_y as int,
            w as int,
            h as int,
            stride as int,
        ),
{
    let len: usize = grid.len();
    let total: usize = w * h;
    let ghost before = sample@;
    let ghost want = region_samples(
        grid@,
        grid_w as int,
        off_x as int,
        off_y as int,
        w as int,
        h as int,
        stride as int,
    );
    let ghost mut done: int = 0;
    let mut p: usize = 0;
    proof {
        assert(0 * stride == 0) by (nonlinear_arith);
        lemma_sample_count(total as int, stride as int);
    }
    while p < total
        invariant
            stride >= 1,
            total == w * h,
            len == grid@.len(),
            w > 0 && h > 0 ==> off_y + h - 1 <= usize::MAX,
            w > 0 && h > 0 ==> (off_y + h - 1) * grid_w + off_x + w <= grid@.len(),
            0 <= done <= want.len(),
            p < total ==> p == done * stride,
            p <= total,
            p == total ==> done == want.len(),
            want.len() == (total + stride - 1) / (stride as int),
            forall|k: int| 0 <= k < want.len() ==> #[trigger] (k * stride) < total,
            want == region_samples(
                grid@,
                grid_w as int,
                off_x as int,
                off_y as int,
                w as int,
                h as int,
                stride as int,
            ),
            sample@ == before + want.take(done),
        decreases total - p,
    {
        proof {
            assert(w > 0 && h > 0) by (nonlinear_arith)
                requires
                    w * h > 0,
                    w >= 0,
                    h >= 0,
            ;
            assert(h * w == w * h) by (nonlinear_arith);
            lemma_index_cell(p as int, h as int, w as int);
            lemma_region_cell(
                (p / w) as int,
                (p % w) as int,
                grid_w as int,
                off_x as int,
                off_y as int,
                w as int,
                h as int,
                grid@.len() as int,
            );
            lemma_sample_next(p as int, done, total as int, stride as int);
        }
        let row: usize = off_y + p / w;
        let index: usize = row * grid_w + off_x + p % w;
        sample.push(grid[index]);
        proof {
            assert(want[done] == grid@[index as int]);
            assert(want.take(done + 1) =~= want.take(done).push(want[done]));
            done = done + 1;
        }
        if stride < total - p {
            p = p + stride;
        } else {
            p = total;
        }
    }
    assert(want.take(want.len() as int) == want);
}

proof fn lemma_region_cell(
    row: int,
    col: int,
    grid_w: int,
    off_x: int,
    off_y: int,
    w: int,
    h: int,
    len: int,
)
    requires
        0 <= row < h,
        0 <= col < w,
        0 <= grid_w,
        0 <= off_x,
        0 <= off_y,
        (off_y + h - 1) * grid_w + off_x + w <= len,
    ensures
        0 <= (off_y + row) * grid_w,
        (off_y + row) * grid_w + off_x + col < len,
        grid_w >= 1 ==> off_y + row <= (off_y + row) * grid_w,
{
    assert((off_y + row) * grid_w <= (off_y + h - 1) * grid_w) by (nonlinear_arith)
        requires
            0 <= off_y + row <= off_y + h - 1,
            0 <= grid_w,
    ;
    assert(0 <= (off_y + row) * grid_w) by (nonlinear_arith)
        requires
            0 <= off_y + row,
            0 <= grid_w,
    ;
    if grid_w >= 1 {
        assert(off_y + row <= (off_y + row) * grid_w) by (nonlinear_arith)
            requires
                0 <= off_y + row,
                1 <= grid_w,
        ;
    }
}

proof fn lemma_sample_count(total: int, stride: int)
    requires
        0 <= total,
        1 <= stride,
    ensures
        0 <= (total + stride - 1) / stride,
        total == 0 ==> (total + stride - 1) / stride == 0,
        forall|k: int|
            0 <= k < (total + stride - 1) / stride ==> #[trigger] (k * stride) < total,
{
    let count = (total + stride - 1) / stride;
    vstd::arithmetic::div_mod::lemma_fundamental_div_mod(total + stride - 1, stride);
    assert(0 <= count) by (nonlinear_arith)
        requires
            count == (total + stride - 1) / stride,
            0 <= total,
            1 <= stride,
    ;
    assert forall|k: int| 0 <= k < count implies #[trigger] (k * stride) < total by {
        assert(k * stride <= (count - 1) * stride) by (nonlinear_arith)
            requires
                k <= count - 1,
                1 <= stride,
        ;
        assert((count - 1) * stride == stride * count - stride) by (nonlinear_arith);
    }
    if total == 0 {
        assert(count == 0) by (nonlinear_arith)
            requires
                count == (stride - 1) / stride,
                1 <= stride,
        ;
    }
}

proof fn lemma_sample_next(p: int, done: int, total: int, stride: int)
    requires
        0 <= p < total,
        1 <= stride,
        0 <= done,
        p == done * stride,
    ensures
        done < (total + stride - 1) / stride,
        (done + 1) * stride == p + stride,
        p + stride >= total ==> done + 1 == (total + stride - 1) / stride,
{
    let count = (total + stride - 1) / stride;
    vstd::arithmetic::div_mod::lemma_fundamental_div_mod(total + stride - 1, stride);
    assert((done + 1) * stride == done * stride + stride) by (nonlinear_arith);
    assert(done < count) by (nonlinear_arith)
        requires
            done * stride < total,
            stride * count + (total + stride - 1) % stride == total + stride - 1,
            0 <= (total + stride - 1) % stride < stride,
            1 <= stride,
    ;
    if p + stride >= total {
        assert(count <= done + 1) by (nonlinear_arith)
            requires
                done * stride + stride >= total,
                stride * count <= total + stride - 1,
                1 <= stride,
        ;
    }
}

/// The positive values among samples, in order.
pub open spec fn positives(sample: Seq<u32>) -> Seq<u32> {
    sample.filter(|v: u32| is_positive(v))
}

/// The samples that a threshold is taken from, as bit patterns: the positive
/// ones. `None` where no threshold applies: the sample is empty, the fraction
/// `pct` is zero or less, or no sample is positive.
pub fn threshold_population(sample: &Vec<u32>, pct: u32) -> (r: Option<Vec<u32>>)
    ensures
        match r {
            Some(p) => p@ == positives(sample@) && p@.len() > 0 && !(!is_nan(pct) && rank(pct) <= 0),
            None => positives(sample@).len() == 0 || (!is_nan(pct) && rank(pct) <= 0),
        },
{
    if sample.len() == 0 {
        reveal(Seq::filter);
        return None;
    }
    if at_most_zero(pct) {
        return None;
    }
    let mut out: Vec<u32> = Vec::new();
    let mut i: usize = 0;
    while i < sample.len()
        invariant
            i <= sample@.len(),
            out@ == positives(sample@.take(i as int)),
        decreases sample@.len() - i,
    {
        proof {
            reveal(Seq::filter);
            assert(sample@.take(i + 1).drop_last() == sample@.take(i as int));
            assert(sample@.take(i + 1).last() == sample@[i as int]);
        }
        if positive(sample[i]) {
            out.push(sample[i]);
        }
        i = i + 1;
    }
    assert(sample@.take(sample@.len() as int) == sample@);
    if out.len() == 0 {
        None
    } else {
        Some(out)
    }
}

fn at_most_zero(bits: u32) -> (r: bool)
    ensures
        r == (!is_nan(bits) && rank(bits) <= 0),
{
    if bits >= 0x8000_0000 {
        bits <= 0xff80_0000
    } else {
        bits == 0
    }
}

/// The threshold: the sample of rank `index` in ascending order, or the
/// largest where there are not that many.
pub fn threshold_of(population: &Vec<u32>, index: usize) -> (r: u32)
    requires
        population@.len() > 0,
    ensures
        is_kth_smallest(
            population@,
            if index < population@.len() {
                index as int
            } else {
                population@.len() - 1
            },
            r,
        ),
{
    let k: usize = if index < population.len() {
        index
    } else {
        population.len() - 1
    };
    kth_smallest(population, k)
}

/// The population of a threshold holds positive floats only, so the order of
/// their bit patterns is the order of the floats.
pub proof fn law_positive_order(sample: Seq<u32>, i: int, j: int)
    requires
        0 <= i < positives(sample).len(),
        0 <= j < positives(sample).len(),
    ensures
        positives(sample)[i] < positives(sample)[j] <==> float_gt(
            positives(sample)[j],
            positives(sample)[i],
        ),
{
    let keep = |v: u32| is_positive(v);
    sample.lemma_filter_pred(keep, i);
    sample.lemma_filter_pred(keep, j);
}

/// The stride brings the sample down to about four million values: below eight
/// million pixels every pixel is looked at, and a larger image is sampled as
/// sparsely as leaves at least four million.
pub proof fn law_stride_bounds_the_sample(pixels: int)
    requires
        0 <= pixels,
    ensures
        stride_of(pixels) >= 1,
        pixels < 8_000_000 ==> stride_of(pixels) == 1,
        pixels >= 4_000_000 ==> stride_of(pixels) * 4_000_000 <= pixels < (stride_of(pixels) + 1)
            * 4_000_000,
{
}

/// A region's sample holds every `stride`-th pixel of the region, from its
/// first on, counted row by row, and no other: sample `k` is the pixel in row
/// `row` and column `col` of the region that stands `k * stride` pixels behind
/// the first.
pub proof fn law_sample_takes_every_stride<T>(
    grid: Seq<T>,
    grid_w: int,
    off_x: int,
    off_y: int,
    w: int,
    h: int,
    stride: int,
    row: int,
    col: int,
    k: int,
)
    requires
        0 <= row < h,
        0 <= col < w,
        1 <= stride,
        row * w + col == k * stride,
    ensures
        ({
            let sample = region_samples(grid, grid_w, off_x, off_y, w, h, stride);
            &&& 0 <= k < sample.len()
            &&& sample[k] == grid[(off_y + row) * grid_w + (off_x + col)]
            &&& (sample.len() - 1) * stride < w * h <= sample.len() * stride
        }),
{
    let total = w * h;
    let count = (total + stride - 1) / stride;
    vstd::arithmetic::div_mod::lemma_fundamental_div_mod_converse(k * stride, w, row, col);
    assert(0 <= row * w + col < total) by (nonlinear_arith)
        requires
            0 <= row < h,
            0 <= col < w,
            total == w * h,
    ;
    assert(0 <= k) by (nonlinear_arith)
        requires
            0 <= k * stride,
            1 <= stride,
    ;
    lemma_sample_next(k * stride, k, total, stride);
    vstd::arithmetic::div_mod::lemma_fundamental_div_mod(total + stride - 1, stride);
    assert((count - 1) * stride == stride * count - stride && count * stride == stride * count)
        by (nonlinear_arith);
}

/// The population of a threshold holds the positive samples and no others:
/// those whose bit pattern lies above zero and not above that of infinity.
pub proof fn law_population_is_positive(sample: Seq<u32>, more: Seq<u32>, v: u32)
    ensures
        positives(sample).contains(v) <==> sample.contains(v) && 0 < v <= 0x7f80_0000,
        positives(sample + more) == positives(sample) + positives(more),
    decreases sample.len(),
{
    reveal(Seq::filter);
    let keep = |x: u32| is_positive(x);
    Seq::filter_distributes_over_add(sample, more, keep);
    if sample.len() > 0 {
        let init = sample.drop_last();
        let before = positives(init);
        let after = positives(sample);
        law_population_is_positive(init, more, v);
        if before.contains(v) {
            let at = choose|at: int| 0 <= at < before.len() && before[at] == v;
            assert(after[at] == v);
            let j = choose|j: int| 0 <= j < init.len() && init[j] == v;
            assert(sample[j] == v);
        }
        if is_positive(sample.last()) {
            assert(after == before.push(sample.last()));
            assert(after[before.len() as int] == sample.last());
            assert(sample[sample.len() - 1] == sample.last());
        }
        if after.contains(v) && !before.contains(v) {
            let at = choose|at: int| 0 <= at < after.len() && after[at] == v;
            if at < before.len() {
                assert(before[at] == v);
            }
        }
        if sample.contains(v) && is_positive(v) {
            let j = choose|j: int| 0 <= j < sample.len() && sample[j] == v;
            if j < init.len() {
                assert(init[j] == v);
            }
        }
    }
}

/// The threshold is one of the samples. The first index gives a smallest, an
/// index past the end a largest, and a higher index never a smaller one.
pub proof fn law_threshold_rises_with_index(
    population: Vec<u32>,
    index: usize,
    r: u32,
    other: usize,
    q: u32,
    i: int,
)
    requires
        call_ensures(threshold_of, (&population, index), r),
        call_ensures(threshold_of, (&population, other), q),
        0 <= i < population@.len(),
    ensures
        population@.contains(r),
        index == 0 ==> r <= population@[i],
        index + 1 >= population@.len() ==> population@[i] <= r,
        index <= other ==> r <= q,
        (forall|a: int, b: int|
            0 <= a <= b < population@.len() ==> population@[a] <= population@[b]) && index
            < population@.len() ==> r == population@[index as int],
{
    let n = population@.len() as int;
    let k = if index < n {
        index as int
    } else {
        n - 1
    };
    let l = if other < n {
        other as int
    } else {
        n - 1
    };
    law_ranks_ascend(population@, k, r, l, q, i);
    if (forall|a: int, b: int| 0 <= a <= b < n ==> population@[a] <= population@[b]) && index < n {
        law_rank_is_place_in_order(population@, k);
        law_ranks_ascend(population@, k, r, k, population@[k], i);
        law_ranks_ascend(population@, k, population@[k], k, r, i);
    }
}

/// A sample grows by a region's values and keeps what it held.
pub proof fn law_sample_grows_region_by_region<T: Copy>(
    sample: &mut Vec<T>,
    grid: &[T],
    grid_w: usize,
    off_x: usize,
    off_y: usize,
    w: usize,
    h: usize,
    stride: usize,
    row: int,
    col: int,
    k: int,
)
    requires
        call_ensures(
            sample_region::<T>,
            (sample, grid, grid_w, off_x, off_y, w, h, stride),
            (),
        ),
        0 <= row < h,
        0 <= col < w,
        1 <= stride,
        row * w + col == k * stride,
    ensures
        final(sample)@.take(old(sample)@.len() as int) == old(sample)@,
        0 <= k && old(sample)@.len() + k < final(sample)@.len(),
        final(sample)@[old(sample)@.len() + k] == grid@[(off_y + row) * grid_w + (off_x + col)],
{
    law_sample_takes_every_stride(
        grid@,
        grid_w as int,
        off_x as int,
        off_y as int,
        w as int,
        h as int,
        stride as int,
        row,
        col,
        k,
    );
    assert(final(sample)@.take(old(sample)@.len() as int) =~= old(sample)@);
}

/// A threshold is taken where the fraction is above zero, or no number at all,
/// and there is a positive sample; it is taken from those.
pub proof fn law_threshold_needs_positive_samples(
    sample: Vec<u32>,
    pct: u32,
    r: Option<Vec<u32>>,
    v: u32,
)
    requires
        call_ensures(threshold_population, (&sample, pct), r),
        sample@.contains(v),
        0 < v <= 0x7f80_0000,
    ensures
        r is None <==> pct == 0 || 0x8000_0000 <= pct <= 0xff80_0000,
        r matches Some(p) ==> p@.contains(v) && p@ == positives(sample@),
{
    law_population_is_positive(sample@, Seq::empty(), v);
}

} // verus!
