//! A small deterministic random generator (xorshift64*), and what training
//! draws from it: shuffles, crops and sampling decisions.

use vstd::prelude::*;
use vstd::seq_lib::to_multiset_update;
use crate::data::crop::CropParams;

verus! {

/// The generator's state.
#[derive(Debug, Clone, Copy, PartialEq, Eq, Structural)]
pub struct Rng {
    pub state: u64,
}

/// What a seed is mixed with.
pub const SEED_MIX: u64 = 0x9e37_79b9_7f4a_7c15;

/// The multiplier of the generator's output.
pub const OUTPUT_MULTIPLIER: u64 = 0x2545_f491_4f6c_dd1d;

/// The state after one draw.
pub open spec fn next_state(x: u64) -> u64 {
    let a = x ^ (x >> 12);
    let b = a ^ (a << 25);
    b ^ (b >> 27)
}

/// The number drawn when the state becomes `x`.
pub open spec fn output_of(x: u64) -> u64 {
    x.wrapping_mul(OUTPUT_MULTIPLIER)
}

/// A draw below `n`, and the state after it. Nothing is drawn for `n` zero.
pub open spec fn draw_below(x: u64, n: int) -> (int, u64) {
    if n == 0 {
        (0, x)
    } else {
        (output_of(next_state(x)) as int % n, next_state(x))
    }
}

/// `s` with the elements at `i` and `j` exchanged.
pub open spec fn exchanged<T>(s: Seq<T>, i: int, j: int) -> Seq<T> {
    s.update(i, s[j]).update(j, s[i])
}

/// `s` shuffled from position `i` down to 1, and the state after that: each
/// position is exchanged with a drawn one up to it.
pub open spec fn shuffled<T>(s: Seq<T>, x: u64, i: int) -> (Seq<T>, u64)
    decreases i,
{
    if i <= 0 {
        (s, x)
    } else {
        let (j, y) = draw_below(x, i + 1);
        shuffled(exchanged(s, i, j), y, i - 1)
    }
}

/// The first `n` sampling decisions, and the state after them. The first step
/// never samples and draws nothing; each later one draws 53 bits and samples
/// where they are below `limit`.
pub open spec fn sampling_flags(x: u64, n: int, limit: u64) -> (Seq<bool>, u64)
    decreases n,
{
    if n <= 0 {
        (Seq::empty(), x)
    } else if n == 1 {
        (seq![false], x)
    } else {
        let (flags, y) = sampling_flags(x, n - 1, limit);
        (flags.push((output_of(next_state(y)) >> 11) < limit), next_state(y))
    }
}

impl Rng {
    /// A generator for a seed.
    pub fn new(seed: u64) -> (r: Self)
        ensures
            r.state == seed ^ SEED_MIX,
    {
        Rng { state: seed ^ SEED_MIX }
    }

    /// Draws 64 bits.
    pub fn next_u64(&mut self) -> (r: u64)
        ensures
            final(self).state == next_state(old(self).state),
            r == output_of(final(self).state),
    {
        let mut x: u64 = self.state;
        x = x ^ (x >> 12);
        x = x ^ (x << 25);
        x = x ^ (x >> 27);
        self.state = x;
        x.wrapping_mul(OUTPUT_MULTIPLIER)
    }

    /// Draws the 53 high bits of a draw: the numerator of a uniform fraction
    /// over 2^53.
    pub fn next_53(&mut self) -> (r: u64)
        ensures
            final(self).state == next_state(old(self).state),
            r == output_of(final(self).state) >> 11,
            r < 0x20_0000_0000_0000,
    {
        let v: u64 = self.next_u64();
        assert(v >> 11 < 0x20_0000_0000_0000) by (bit_vector);
        v >> 11
    }

    /// Draws a number below `n`; zero, without drawing, for `n` zero.
    pub fn below(&mut self, n: usize) -> (r: usize)
        ensures
            (r as int, final(self).state) == draw_below(old(self).state, n as int),
            n > 0 ==> r < n,
    {
        if n == 0 {
            0
        } else {
            let v: u64 = self.next_u64();
            let m: u64 = v % (n as u64);
            m as usize
        }
    }

    /// Shuffles a list.
    pub fn shuffle<T: Copy>(&mut self, list: &mut Vec<T>)
        ensures
            (final(list)@, final(self).state) == shuffled(
                old(list)@,
                old(self).state,
                old(list)@.len() - 1,
            ),
    {
        let n: usize = list.len();
        if n == 0 {
            return;
        }
        let mut i: usize = n - 1;
        while i > 0
            invariant
                i < n,
                n == list@.len(),
                n == old(list)@.len(),
                shuffled(list@, self.state, i as int) == shuffled(
                    old(list)@,
                    old(self).state,
                    old(list)@.len() - 1,
                ),
            decreases i,
        {
            let ghost before = list@;
            let j: usize = self.below(i + 1);
            let a: T = list[i];
            let b: T = list[j];
            list[i] = b;
            list[j] = a;
            assert(list@ =~= exchanged(before, i as int, j as int));
            i = i - 1;
        }
    }

    /// The sampling decisions of `n` rollout steps.
    pub fn sample_steps(&mut self, n: usize, limit: u64) -> (r: Vec<bool>)
        ensures
            (r@, final(self).state) == sampling_flags(old(self).state, n as int, limit),
    {
        let mut flags: Vec<bool> = Vec::new();
        if n == 0 {
            return flags;
        }
        flags.push(false);
        assert(flags@ =~= seq![false]);
        let mut k: usize = 1;
        while k < n
            invariant
                1 <= k <= n,
                (flags@, self.state) == sampling_flags(old(self).state, k as int, limit),
            decreases n - k,
        {
            let v: u64 = self.next_53();
            flags.push(v < limit);
            k = k + 1;
        }
        flags
    }
}

/// The side of a crop in an image of that size.
pub open spec fn crop_side(w: int, h: int, max_size: int) -> int {
    let m = if max_size <= w {
        max_size
    } else {
        w
    };
    if m <= h {
        m
    } else {
        h
    }
}

/// Draws a crop of side `max_size`, or of the largest side that fits, anywhere
/// inside an image of width `w` and height `h`.
pub fn random_crop_dims(w: usize, h: usize, max_size: usize, rng: &mut Rng) -> (r: CropParams)
    requires
        h - crop_side(w as int, h as int, max_size as int) < usize::MAX,
        w - crop_side(w as int, h as int, max_size as int) < usize::MAX,
    ensures
        ({
            let size = crop_side(w as int, h as int, max_size as int);
            let (top, x) = draw_below(old(rng).state, h - size + 1);
            let (left, y) = draw_below(x, w - size + 1);
            &&& r.size == size
            &&& r.top == top
            &&& r.left == left
            &&& final(rng).state == y
        }),
        r.top + r.size <= h,
        r.left + r.size <= w,
{
    let m: usize = if max_size <= w {
        max_size
    } else {
        w
    };
    let size: usize = if m <= h {
        m
    } else {
        h
    };
    let top: usize = rng.below(h - size + 1);
    let left: usize = rng.below(w - size + 1);
    CropParams { top, left, size }
}

/// A state other than zero never becomes zero, and zero stays zero.
pub proof fn law_zero_is_isolated(x: u64)
    ensures
        next_state(0) == 0,
        x != 0 ==> next_state(x) != 0,
{
    assert((0u64 ^ (0u64 >> 12)) == 0u64) by (bit_vector);
    assert((0u64 ^ (0u64 << 25)) == 0u64) by (bit_vector);
    assert((0u64 ^ (0u64 >> 27)) == 0u64) by (bit_vector);
    let a = x ^ (x >> 12);
    let b = a ^ (a << 25);
    assert(x ^ (x >> 12) == 0 ==> x == 0) by (bit_vector);
    assert(a ^ (a << 25) == 0 ==> a == 0) by (bit_vector);
    assert(b ^ (b >> 27) == 0 ==> b == 0) by (bit_vector);
}

/// A seed gives the dead state zero only where it is the constant that seeds
/// are mixed with.
pub proof fn law_seed_mix(seed: u64)
    ensures
        seed ^ SEED_MIX == 0 <==> seed == SEED_MIX,
{
    assert(seed ^ 0x9e37_79b9_7f4a_7c15 == 0 <==> seed == 0x9e37_79b9_7f4a_7c15) by (bit_vector);
}

proof fn lemma_exchange_keeps_elements<T>(s: Seq<T>, i: int, j: int)
    requires
        0 <= i < s.len(),
        0 <= j < s.len(),
    ensures
        exchanged(s, i, j).to_multiset() == s.to_multiset(),
{
    let t = s.update(i, s[j]);
    to_multiset_update(s, i, s[j]);
    to_multiset_update(t, j, s[i]);
    broadcast use vstd::multiset::group_multiset_axioms;
    broadcast use vstd::seq_lib::group_to_multiset_ensures;

    assert(s.contains(s[i]));
    assert(s.to_multiset().count(s[i]) > 0);
    assert(s.contains(s[j]));
    assert(s.to_multiset().count(s[j]) > 0);
    assert(t[j] == s[j]);
    assert(exchanged(s, i, j).to_multiset() =~= s.to_multiset());
}

/// A shuffle loses and gains nothing: the list holds the same elements after
/// it, each as often as before.
pub proof fn law_shuffle_is_permutation<T>(s: Seq<T>, x: u64, i: int)
    requires
        i < s.len(),
    ensures
        shuffled(s, x, i).0.len() == s.len(),
        shuffled(s, x, i).0.to_multiset() == s.to_multiset(),
    decreases i,
{
    if i > 0 {
        let (j, y) = draw_below(x, i + 1);
        lemma_exchange_keeps_elements(s, i, j);
        law_shuffle_is_permutation(exchanged(s, i, j), y, i - 1);
    }
}

/// A drawn crop lies inside the image, whatever the state.
pub proof fn law_crop_fits(w: int, h: int, max_size: int, x: u64)
    requires
        0 <= w,
        0 <= h,
        0 <= max_size,
    ensures
        ({
            let size = crop_side(w, h, max_size);
            let (top, y) = draw_below(x, h - size + 1);
            let (left, z) = draw_below(y, w - size + 1);
            &&& size == max_size || size == w || size == h
            &&& size <= max_size && size <= w && size <= h
            &&& 0 <= top && top + size <= h
            &&& 0 <= left && left + size <= w
        }),
{
}

/// The state after a number of draws.
pub open spec fn after_draws(x: u64, draws: int) -> u64
    decreases draws,
{
    if draws <= 0 {
        x
    } else {
        next_state(after_draws(x, draws - 1))
    }
}

proof fn lemma_draws_add(x: u64, draws: int)
    requires
        0 <= draws,
    ensures
        after_draws(next_state(x), draws) == after_draws(x, draws + 1),
    decreases draws,
{
    if draws > 0 {
        lemma_draws_add(x, draws - 1);
    } else {
        assert(after_draws(x, 0) == x);
        assert(after_draws(x, 1) == next_state(after_draws(x, 0)));
    }
}

/// No two states go on to the same one: a draw loses nothing of the state.
pub proof fn law_draws_lose_nothing(x: u64, y: u64)
    ensures
        next_state(x) == next_state(y) <==> x == y,
{
    let a = x ^ (x >> 12);
    let b = y ^ (y >> 12);
    let c = a ^ (a << 25);
    let d = b ^ (b << 25);
    assert(c ^ (c >> 27) == d ^ (d >> 27) ==> c == d) by (bit_vector);
    assert(a ^ (a << 25) == b ^ (b << 25) ==> a == b) by (bit_vector);
    assert(x ^ (x >> 12) == y ^ (y >> 12) ==> x == y) by (bit_vector);
}

/// A shuffle puts a drawn element in each place: the last place holds the one
/// that the first draw names among all, what stands behind the shuffled part
/// stays, and there is one draw for every place but the first.
pub proof fn law_shuffle_draws_every_place<T>(s: Seq<T>, x: u64, i: int, k: int)
    requires
        0 <= i < s.len(),
    ensures
        i > 0 ==> shuffled(s, x, i).0[i] == s[output_of(after_draws(x, 1)) as int % (i + 1)],
        i < k < s.len() ==> shuffled(s, x, i).0[k] == s[k],
        shuffled(s, x, i).1 == after_draws(x, i),
        shuffled(s, x, i).0.len() == s.len(),
    decreases i,
{
    if i > 0 {
        let y = next_state(x);
        assert(after_draws(x, 0) == x);
        assert(after_draws(x, 1) == y);
        let j = output_of(y) as int % (i + 1);
        let t = exchanged(s, i, j);
        assert(t[i] == s[j]);
        law_shuffle_draws_every_place(t, y, i - 1, i);
        law_shuffle_draws_every_place(t, y, i - 1, k);
        lemma_draws_add(x, i - 1);
    }
}

/// A shuffle goes on with what it has not placed yet: the places before the
/// last hold a shuffle of the elements that are left, by the draws that
/// follow. The element that stood last takes the place of the one drawn.
pub proof fn law_shuffle_goes_on_with_the_rest<T>(s: Seq<T>, x: u64, i: int)
    requires
        0 < i < s.len(),
    ensures
        ({
            let j = output_of(after_draws(x, 1)) as int % (i + 1);
            let rest = s.take(i);
            shuffled(s, x, i).0.take(i) == shuffled(
                if j < i {
                    rest.update(j, s[i])
                } else {
                    rest
                },
                after_draws(x, 1),
                i - 1,
            ).0
        }),
{
    let y = next_state(x);
    assert(after_draws(x, 0) == x);
    assert(after_draws(x, 1) == y);
    let j = output_of(y) as int % (i + 1);
    let t = exchanged(s, i, j);
    lemma_shuffle_of_prefix(t, y, i - 1, i);
    if j < i {
        assert(t.take(i) =~= s.take(i).update(j, s[i]));
    } else {
        assert(t.take(i) =~= s.take(i));
    }
}

proof fn lemma_shuffle_of_prefix<T>(s: Seq<T>, x: u64, i: int, n: int)
    requires
        i < n <= s.len(),
    ensures
        shuffled(s, x, i).0.take(n) == shuffled(s.take(n), x, i).0,
        shuffled(s, x, i).0.len() == s.len(),
    decreases i,
{
    if i > 0 {
        let (j, y) = draw_below(x, i + 1);
        assert(exchanged(s, i, j).take(n) =~= exchanged(s.take(n), i, j));
        lemma_shuffle_of_prefix(exchanged(s, i, j), y, i - 1, n);
    }
}

/// The sampling decisions of a rollout: one for each step; the first step does
/// not sample and draws nothing, and each later one has a draw of its own and
/// samples where its 53 high bits are below the limit.
pub proof fn law_each_step_draws_its_decision(x: u64, n: int, limit: u64, k: int)
    requires
        0 <= k < n,
    ensures
        sampling_flags(x, n, limit).0.len() == n,
        k == 0 ==> !sampling_flags(x, n, limit).0[k],
        k > 0 ==> sampling_flags(x, n, limit).0[k] == (output_of(after_draws(x, k)) >> 11 < limit),
        sampling_flags(x, n, limit).1 == after_draws(x, n - 1),
    decreases n,
{
    if n > 1 {
        if k < n - 1 {
            law_each_step_draws_its_decision(x, n - 1, limit, k);
        } else {
            law_each_step_draws_its_decision(x, n - 1, limit, 0);
        }
    }
}

/// A limit of zero never samples, and a limit of all 53 bits always does, but
/// for the first step; a higher limit samples wherever a lower one does.
pub proof fn law_limit_bounds_sampling(x: u64, n: int, limit: u64, other: u64, k: int)
    requires
        0 <= k < n,
        limit <= other,
    ensures
        !sampling_flags(x, n, 0).0[k],
        limit >= 0x20_0000_0000_0000 && k > 0 ==> sampling_flags(x, n, limit).0[k],
        sampling_flags(x, n, limit).0[k] ==> sampling_flags(x, n, other).0[k],
{
    law_each_step_draws_its_decision(x, n, 0, k);
    law_each_step_draws_its_decision(x, n, limit, k);
    law_each_step_draws_its_decision(x, n, other, k);
    let v = output_of(after_draws(x, k));
    assert(v >> 11 < 0x20_0000_0000_0000) by (bit_vector);
}

/// Draws follow on each other: some draws and then some more are all of them.
pub proof fn law_draws_follow_on(x: u64, first: int, more: int)
    requires
        0 <= first,
        0 <= more,
    ensures
        after_draws(after_draws(x, first), more) == after_draws(x, first + more),
    decreases more,
{
    if more > 0 {
        law_draws_follow_on(x, first, more - 1);
    }
}

/// A number below a bound is the remainder of one draw; a bound of zero draws
/// nothing.
pub proof fn law_bounded_number_takes_one_draw(x: u64, n: int)
    requires
        0 <= n,
    ensures
        n > 0 ==> draw_below(x, n) == (output_of(after_draws(x, 1)) as int % n, after_draws(x, 1)),
        n > 0 ==> 0 <= draw_below(x, n).0 < n,
        n == 0 ==> draw_below(x, n) == (0int, x),
{
    assert(after_draws(x, 0) == x);
    assert(after_draws(x, 1) == next_state(after_draws(x, 0)));
}

/// The generator gives what its draws give: a bounded number takes one draw, or
/// none for a bound of zero, and a fraction takes the high bits of one.
pub proof fn law_generator_draws(
    rng: &mut Rng,
    n: usize,
    r: usize,
    other: &mut Rng,
    bits: u64,
)
    requires
        call_ensures(Rng::below, (rng, n), r),
        call_ensures(Rng::next_53, (other,), bits),
    ensures
        n > 0 ==> r == output_of(after_draws(old(rng).state, 1)) as int % (n as int),
        n > 0 ==> final(rng).state == after_draws(old(rng).state, 1),
        n == 0 ==> r == 0 && final(rng).state == old(rng).state,
        bits == output_of(after_draws(old(other).state, 1)) >> 11,
        final(other).state == after_draws(old(other).state, 1),
{
    law_bounded_number_takes_one_draw(old(rng).state, n as int);
    let x = old(other).state;
    assert(after_draws(x, 0) == x);
    assert(after_draws(x, 1) == next_state(after_draws(x, 0)));
}

/// A drawn crop lies inside the image, as large as asked for or as fits, with
/// its row from the first draw and its column from the second.
pub proof fn law_random_crop_is_drawn(
    w: usize,
    h: usize,
    max_size: usize,
    rng: &mut Rng,
    r: CropParams,
)
    requires
        call_ensures(random_crop_dims, (w, h, max_size, rng), r),
    ensures
        r.top + r.size <= h,
        r.left + r.size <= w,
        r.size <= max_size,
        r.size == max_size || r.size == w || r.size == h,
        r.top == output_of(after_draws(old(rng).state, 1)) as int % (h - r.size + 1),
        r.left == output_of(after_draws(old(rng).state, 2)) as int % (w - r.size + 1),
        final(rng).state == after_draws(old(rng).state, 2),
{
    let x = old(rng).state;
    law_bounded_number_takes_one_draw(x, h - r.size + 1);
    law_bounded_number_takes_one_draw(after_draws(x, 1), w - r.size + 1);
    law_draws_follow_on(x, 1, 1);
}

} // verus!
