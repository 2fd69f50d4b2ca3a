//! The order of single-precision floats, read off their bit patterns.
//!
//! Sample values travel through this library as IEEE 754 bit patterns. Their
//! order is an order of integers: sign and magnitude give each pattern a rank,
//! and of two numbers that are not NaN the smaller one has the smaller rank.

use vstd::prelude::*;

verus! {

/// The magnitude part of a bit pattern: everything but the sign bit.
pub open spec fn magnitude(bits: u32) -> int {
    if bits >= 0x8000_0000 {
        bits - 0x8000_0000
    } else {
        bits as int
    }
}

/// Whether a bit pattern is a NaN.
pub open spec fn is_nan(bits: u32) -> bool {
    magnitude(bits) > 0x7f80_0000
}

/// Rank of a bit pattern in the order of floats; both zeros have rank zero.
pub open spec fn rank(bits: u32) -> int {
    if bits >= 0x8000_0000 {
        -magnitude(bits)
    } else {
        magnitude(bits)
    }
}

/// Whether the float `a` is greater than the float `b`: never where one of
/// them is a NaN.
pub open spec fn float_gt(a: u32, b: u32) -> bool {
    !is_nan(a) && !is_nan(b) && rank(a) > rank(b)
}

/// Whether the float is greater than zero.
pub open spec fn is_positive(bits: u32) -> bool {
    float_gt(bits, 0)
}

fn magnitude_of(bits: u32) -> (r: u32)
    ensures
        r == magnitude(bits),
{
    if bits >= 0x8000_0000 {
        bits - 0x8000_0000
    } else {
        bits
    }
}

/// Whether the float `a` is greater than the float `b`.
pub fn greater(a: u32, b: u32) -> (r: bool)
    ensures
        r == float_gt(a, b),
{
    let ma: u32 = magnitude_of(a);
    let mb: u32 = magnitude_of(b);
    if ma > 0x7f80_0000 || mb > 0x7f80_0000 {
        return false;
    }
    let ra: i64 = if a >= 0x8000_0000 {
        -(ma as i64)
    } else {
        ma as i64
    };
    let rb: i64 = if b >= 0x8000_0000 {
        -(mb as i64)
    } else {
        mb as i64
    };
    ra > rb
}

/// Whether the float is greater than zero.
pub fn positive(bits: u32) -> (r: bool)
    ensures
        r == is_positive(bits),
{
    greater(bits, 0)
}

/// Number of elements at most `v`.
pub open spec fn count_le(s: Seq<u32>, v: int) -> nat
    decreases s.len(),
{
    if s.len() == 0 {
        0
    } else {
        count_le(s.drop_last(), v) + (if s.last() <= v {
            1nat
        } else {
            0
        })
    }
}

/// Whether `v` is the element of rank `k` (from 0) of `s` in ascending order:
/// it occurs in `s`, at most `k` elements are smaller, and more than `k` are
/// at most `v`.
pub open spec fn is_kth_smallest(s: Seq<u32>, k: int, v: u32) -> bool {
    &&& s.contains(v)
    &&& count_le(s, v - 1) <= k < count_le(s, v as int)
}

fn count_at_most(s: &Vec<u32>, v: u32) -> (r: usize)
    ensures
        r == count_le(s@, v as int),
{
    let mut count: usize = 0;
    let mut i: usize = 0;
    while i < s.len()
        invariant
            i <= s@.len(),
            count <= i,
            count == count_le(s@.take(i as int), v as int),
        decreases s@.len() - i,
    {
        proof {
            assert(s@.take(i + 1).drop_last() == s@.take(i as int));
        }
        if s[i] <= v {
            count = count + 1;
        }
        i = i + 1;
    }
    assert(s@.take(s@.len() as int) == s@);
    count
}

proof fn lemma_count_all(s: Seq<u32>)
    ensures
        count_le(s, u32::MAX as int) == s.len(),
        count_le(s, -1) == 0,
    decreases s.len(),
{
    if s.len() > 0 {
        lemma_count_all(s.drop_last());
    }
}

proof fn lemma_count_step(s: Seq<u32>, v: u32)
    requires
        count_le(s, v - 1) < count_le(s, v as int),
    ensures
        s.contains(v),
    decreases s.len(),
{
    if s.len() > 0 {
        if s.last() == v {
            assert(s[s.len() - 1] == v);
        } else {
            lemma_count_step(s.drop_last(), v);
            let i = choose|i: int| 0 <= i < s.drop_last().len() && s.drop_last()[i] == v;
            assert(s[i] == v);
        }
    }
}

/// The element of rank `k` (from 0) of `s` in ascending order.
pub fn kth_smallest(s: &Vec<u32>, k: usize) -> (v: u32)
    requires
        k < s@.len(),
    ensures
        is_kth_smallest(s@, k as int, v),
{
    let mut lo: u32 = 0;
    let mut hi: u32 = u32::MAX;
    proof {
        lemma_count_all(s@);
    }
    while lo < hi
        invariant
            lo <= hi,
            count_le(s@, lo - 1) <= k,
            k < count_le(s@, hi as int),
        decreases hi - lo,
    {
        let mid: u32 = lo + (hi - lo) / 2;
        if count_at_most(s, mid) > k {
            hi = mid;
        } else {
            lo = mid + 1;
        }
    }
    proof {
        lemma_count_step(s@, lo);
    }
    lo
}

/// The order of floats in terms of their bit patterns: numbers without a sign
/// are ordered as their patterns are, negative ones the other way round, no
/// negative number is above one without a sign, and the two zeros are equal. A
/// NaN is neither above nor below anything.
pub proof fn law_patterns_order_floats(a: u32, b: u32)
    ensures
        is_nan(a) <==> (a & 0x7fff_ffff) > 0x7f80_0000,
        is_nan(a) || is_nan(b) ==> !float_gt(a, b),
        !is_nan(a) && !is_nan(b) ==> {
            &&& a < 0x8000_0000 && b < 0x8000_0000 ==> (float_gt(a, b) <==> a > b)
            &&& a >= 0x8000_0000 && b >= 0x8000_0000 ==> (float_gt(a, b) <==> a < b)
            &&& a < 0x8000_0000 && b >= 0x8000_0000 ==> (float_gt(a, b) <==> !(a == 0 && b
                == 0x8000_0000))
            &&& a >= 0x8000_0000 && b < 0x8000_0000 ==> !float_gt(a, b)
        },
        is_positive(a) <==> 0 < a <= 0x7f80_0000,
{
    assert(a < 0x8000_0000 ==> (a & 0x7fff_ffff) == a) by (bit_vector);
    assert(a >= 0x8000_0000 ==> (a & 0x7fff_ffff) == a - 0x8000_0000) by (bit_vector);
}

proof fn lemma_count_mono(s: Seq<u32>, v: int, w: int)
    requires
        v <= w,
    ensures
        count_le(s, v) <= count_le(s, w) <= s.len(),
    decreases s.len(),
{
    if s.len() > 0 {
        lemma_count_mono(s.drop_last(), v, w);
    }
}

proof fn lemma_count_of_one(s: Seq<u32>, v: int, i: int)
    requires
        0 <= i < s.len(),
    ensures
        s[i] <= v ==> count_le(s, v) > 0,
        s[i] > v ==> count_le(s, v) < s.len(),
    decreases s.len(),
{
    lemma_count_mono(s.drop_last(), v, v);
    if i < s.len() - 1 {
        lemma_count_of_one(s.drop_last(), v, i);
    }
}

/// The element of a rank: the one of the lowest rank is a smallest element and
/// the one of the highest a largest, a higher rank never gives a smaller
/// element, and the element of a rank occurs among the others.
pub proof fn law_ranks_ascend(s: Seq<u32>, k: int, v: u32, l: int, w: u32, i: int)
    requires
        is_kth_smallest(s, k, v),
        is_kth_smallest(s, l, w),
        0 <= i < s.len(),
    ensures
        s.contains(v),
        0 <= k < s.len(),
        k <= l ==> v <= w,
        k == 0 ==> v <= s[i],
        k == s.len() - 1 ==> s[i] <= v,
{
    lemma_count_mono(s, v as int, v as int);
    lemma_count_of_one(s, v - 1, i);
    lemma_count_of_one(s, v as int, i);
    if k <= l && w < v {
        lemma_count_mono(s, w as int, v - 1);
    }
}

/// The element of a rank is the same however the list is ordered: a list in
/// ascending order holds it in that place.
pub proof fn law_rank_is_place_in_order(s: Seq<u32>, k: int)
    requires
        0 <= k < s.len(),
        forall|i: int, j: int| 0 <= i <= j < s.len() ==> s[i] <= s[j],
    ensures
        is_kth_smallest(s, k, s[k]),
{
    lemma_count_sorted_above(s, s[k] as int, k);
    lemma_count_sorted_below(s, s[k] - 1, k);
}

proof fn lemma_count_sorted_above(s: Seq<u32>, v: int, k: int)
    requires
        0 <= k < s.len(),
        forall|i: int| 0 <= i <= k ==> s[i] <= v,
    ensures
        count_le(s, v) > k,
    decreases s.len(),
{
    let init = s.drop_last();
    if k < s.len() - 1 {
        assert forall|i: int| 0 <= i <= k implies init[i] <= v by {
            assert(init[i] == s[i]);
        }
        lemma_count_sorted_above(init, v, k);
    } else if k > 0 {
        assert forall|i: int| 0 <= i <= k - 1 implies init[i] <= v by {
            assert(init[i] == s[i]);
        }
        lemma_count_sorted_above(init, v, k - 1);
        assert(s[k] <= v);
    } else {
        assert(s[0] <= v);
    }
}

proof fn lemma_count_sorted_below(s: Seq<u32>, v: int, k: int)
    requires
        0 <= k <= s.len(),
        forall|i: int| k <= i < s.len() ==> s[i] > v,
    ensures
        count_le(s, v) <= k,
    decreases s.len(),
{
    if s.len() > 0 {
        let init = s.drop_last();
        if k < s.len() {
            assert forall|i: int| k <= i < init.len() implies init[i] > v by {
                assert(init[i] == s[i]);
            }
            lemma_count_sorted_below(init, v, k);
            assert(s[s.len() - 1] > v);
        } else {
            lemma_count_mono(s, v, v);
        }
    }
}

} // verus!
