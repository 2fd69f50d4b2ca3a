//! The scales of the multi-scale gradient loss.

use vstd::arithmetic::power2::{lemma_pow2_pos, lemma_pow2_strictly_increases, pow2};
use vstd::bits::{lemma_usize_pow2_no_overflow, lemma_usize_shl_is_mul};
use vstd::prelude::*;

verus! {

/// Whether an image keeps at least two rows and two columns when its sides are
/// divided by two `scale` times. The image itself always counts.
pub open spec fn is_usable(h: int, w: int, scale: int) -> bool {
    scale == 0 || (h / pow2(scale as nat) as int >= 2 && w / pow2(scale as nat) as int >= 2)
}

/// Side of the window that is averaged at a scale; none where too little would
/// be left of the image.
pub fn avg_pool_scale(h: usize, w: usize, scale: usize) -> (r: Option<usize>)
    requires
        scale < usize::BITS,
    ensures
        match r {
            Some(kernel) => is_usable(h as int, w as int, scale as int) && kernel == pow2(
                scale as nat,
            ),
            None => !is_usable(h as int, w as int, scale as int),
        },
{
    proof {
        lemma_pow2_pos(scale as nat);
        lemma_usize_pow2_no_overflow(scale as nat);
        lemma_usize_shl_is_mul(1usize, scale);
    }
    let kernel: usize = 1usize << scale;
    if scale == 0 {
        return Some(kernel);
    }
    if h / kernel < 2 || w / kernel < 2 {
        return None;
    }
    Some(kernel)
}

/// The usable scales below `n`, in order.
pub open spec fn scales_up_to(h: int, w: int, n: int) -> Seq<int>
    decreases n,
{
    if n <= 0 {
        Seq::empty()
    } else if is_usable(h, w, n - 1) {
        scales_up_to(h, w, n - 1).push(n - 1)
    } else {
        scales_up_to(h, w, n - 1)
    }
}

/// The scales at which the gradients of two images of this size are compared,
/// out of the first `scales`.
pub fn gradient_scales(h: usize, w: usize, scales: usize) -> (r: Vec<usize>)
    requires
        scales <= usize::BITS,
    ensures
        r@.map_values(|x: usize| x as int) == scales_up_to(h as int, w as int, scales as int),
{
    let mut out: Vec<usize> = Vec::new();
    let mut s: usize = 0;
    assert(out@.map_values(|x: usize| x as int) =~= Seq::<int>::empty());
    while s < scales
        invariant
            s <= scales,
            scales <= usize::BITS,
            out@.map_values(|x: usize| x as int) == scales_up_to(h as int, w as int, s as int),
        decreases scales - s,
    {
        if avg_pool_scale(h, w, s).is_some() {
            let ghost before = out@;
            out.push(s);
            assert(out@.map_values(|x: usize| x as int) =~= before.map_values(
                |x: usize| x as int,
            ).push(s as int));
        }
        s = s + 1;
    }
    out
}

/// A scale is usable wherever a coarser one is: the scales that are compared
/// are the first few, without a gap.
pub proof fn law_finer_scales_are_usable(h: int, w: int, fine: int, coarse: int)
    requires
        0 <= h,
        0 <= w,
        0 <= fine <= coarse,
        is_usable(h, w, coarse),
    ensures
        is_usable(h, w, fine),
{
    if 0 < fine < coarse {
        let a = pow2(fine as nat) as int;
        let b = pow2(coarse as nat) as int;
        lemma_pow2_pos(fine as nat);
        lemma_pow2_strictly_increases(fine as nat, coarse as nat);
        vstd::arithmetic::div_mod::lemma_div_is_ordered_by_denominator(h, a, b);
        vstd::arithmetic::div_mod::lemma_div_is_ordered_by_denominator(w, a, b);
    }
}

/// A scale is usable where each side of the image holds its window twice; the
/// image itself always is.
pub proof fn law_usable_scale_fits_twice(h: int, w: int, scale: int)
    requires
        0 <= h,
        0 <= w,
        1 <= scale,
    ensures
        is_usable(h, w, 0),
        is_usable(h, w, scale) <==> 2 * pow2(scale as nat) <= h && 2 * pow2(scale as nat) <= w,
{
    let p = pow2(scale as nat) as int;
    lemma_pow2_pos(scale as nat);
    lemma_twice(h, p);
    lemma_twice(w, p);
}

proof fn lemma_twice(x: int, p: int)
    requires
        0 <= x,
        0 < p,
    ensures
        x / p >= 2 <==> 2 * p <= x,
{
    vstd::arithmetic::div_mod::lemma_fundamental_div_mod(x, p);
    let q = x / p;
    assert(q >= 2 ==> 2 * p <= p * q) by (nonlinear_arith)
        requires
            0 < p,
    ;
    assert(q < 2 ==> p * q <= p) by (nonlinear_arith)
        requires
            0 < p,
    ;
}

/// The scales that are compared are the usable ones of those asked for, each
/// once, from the finest on. An image that is compared at all is compared at
/// its own scale.
pub proof fn law_every_usable_scale_is_compared(h: int, w: int, n: int, scale: int, i: int, j: int)
    ensures
        scales_up_to(h, w, n).contains(scale) <==> 0 <= scale < n && is_usable(h, w, scale),
        0 <= i < j < scales_up_to(h, w, n).len() ==> scales_up_to(h, w, n)[i] < scales_up_to(
            h,
            w,
            n,
        )[j],
        n > 0 ==> scales_up_to(h, w, n).len() > 0 && scales_up_to(h, w, n)[0] == 0,
    decreases n,
{
    if n > 0 {
        let before = scales_up_to(h, w, n - 1);
        let all = scales_up_to(h, w, n);
        law_every_usable_scale_is_compared(h, w, n - 1, scale, i, j);
        if before.contains(scale) {
            let at = choose|at: int| 0 <= at < before.len() && before[at] == scale;
            assert(all[at] == scale);
        }
        if is_usable(h, w, n - 1) {
            assert(all[before.len() as int] == n - 1);
            if 0 <= i < before.len() {
                assert(before.contains(before[i]));
                law_every_usable_scale_is_compared(h, w, n - 1, before[i], 0, 0);
            }
        }
        if all.contains(scale) && !before.contains(scale) {
            let at = choose|at: int| 0 <= at < all.len() && all[at] == scale;
            if at < before.len() {
                assert(before[at] == scale);
            }
        }
    }
}

/// The window that is averaged doubles from scale to scale, and is a single
/// pixel at the image's own.
pub proof fn law_window_doubles(
    h: usize,
    w: usize,
    scale: usize,
    r: Option<usize>,
    next: Option<usize>,
)
    requires
        scale + 1 < usize::BITS,
        call_ensures(avg_pool_scale, (h, w, scale), r),
        call_ensures(avg_pool_scale, (h, w, (scale + 1) as usize), next),
    ensures
        scale == 0 ==> r == Some(1usize),
        next is Some ==> r is Some && next->0 == 2 * r->0,
{
    vstd::arithmetic::power2::lemma_pow2_unfold((scale + 1) as nat);
    vstd::arithmetic::power2::lemma2_to64();
    if next is Some {
        law_finer_scales_are_usable(h as int, w as int, scale as int, scale + 1);
    }
}

} // verus!
