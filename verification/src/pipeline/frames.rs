//! Which frames a run stacks, and the schedule of its alignment pass.

use vstd::prelude::*;

verus! {

/// A progress event of a run.
#[derive(Debug, Clone, Copy, PartialEq, Eq, Structural)]
pub enum PipelineProgress {
    /// RAW frame `current` (from 1) of `total` has been decoded and stored.
    DecodeRaw { current: usize, total: usize },
    /// Alignment of `total` frames starts.
    AlignStart { total: usize },
    /// Frame `current` (from 1) of `total` is aligned and committed.
    AlignFrame { current: usize, total: usize },
    /// Alignment is done.
    AlignDone,
    /// Fusion of `total` tiles starts.
    FuseStart { total: usize },
    /// Tile `current` (from 1) of `total` is fused and written.
    FuseTile { current: usize, total: usize },
    /// Fusion is done.
    FuseDone,
    /// The result is being encoded.
    Encoding,
}

/// Every `step`-th element of `s`, from the first on.
pub open spec fn every_nth<T>(s: Seq<T>, step: int) -> Seq<T>
    recommends
        step > 0,
{
    Seq::new(((s.len() + step - 1) / step) as nat, |i: int| s[i * step])
}

/// The frames that a run stacks.
pub open spec fn stacked_frames<T>(paths: Seq<T>, reverse: bool, nth: int) -> Seq<T> {
    let ordered = if reverse {
        paths.reverse()
    } else {
        paths
    };
    if nth > 1 {
        every_nth(ordered, nth)
    } else {
        ordered
    }
}

/// The frames that a run stacks: in the given order or its reverse, and only
/// every `stack_every_nth` of them where that is more than one.
pub fn select_frames(paths: &Vec<String>, sort_reverse: bool, stack_every_nth: u32) -> (r: Vec<
    String,
>)
    ensures
        r@ == stacked_frames(paths@, sort_reverse, stack_every_nth as int),
{
    let n: usize = paths.len();
    let step: usize = if stack_every_nth > 1 {
        stack_every_nth as usize
    } else {
        1
    };
    let ghost ordered = if sort_reverse {
        paths@.reverse()
    } else {
        paths@
    };
    let mut out: Vec<String> = Vec::new();
    let mut i: usize = 0;
    proof {
        assert(out@.len() * step == 0) by (nonlinear_arith)
            requires
                out@.len() == 0,
        ;
        assert((out@.len() - 1) * step == -step) by (nonlinear_arith)
            requires
                out@.len() == 0,
        ;
    }
    while i < n
        invariant
            n == paths@.len(),
            step >= 1,
            ordered == (if sort_reverse {
                paths@.reverse()
            } else {
                paths@
            }),
            i < n ==> i == out@.len() * step,
            i <= n,
            i == n ==> n <= out@.len() * step,
            (out@.len() - 1) * step < n,
            forall|k: int| 0 <= k < out@.len() ==> #[trigger] out@[k] == ordered[k * step],
        decreases n - i,
    {
        let index: usize = if sort_reverse {
            n - 1 - i
        } else {
            i
        };
        let ghost done = out@.len() as int;
        out.push(paths[index].clone());
        proof {
            assert((done + 1) * step == done * step + step) by (nonlinear_arith);
        }
        if step < n - i {
            i = i + step;
        } else {
            i = n;
        }
    }
    proof {
        let count = out@.len() as int;
        assert(count == (n + step - 1) / (step as int)) by {
            if n == 0 {
                assert(count == 0) by {
                    if count > 0 {
                        assert((count - 1) * step >= 0) by (nonlinear_arith)
                            requires
                                count >= 1,
                                step >= 1,
                        ;
                    }
                }
                assert((n + step - 1) / (step as int) == 0) by (nonlinear_arith)
                    requires
                        n == 0,
                        step >= 1,
                ;
            } else {
                assert((count - 1) * step == count * step - step) by (nonlinear_arith);
                vstd::arithmetic::div_mod::lemma_fundamental_div_mod_converse(
                    n + step - 1,
                    step as int,
                    count,
                    n + step - 1 - count * step,
                );
            }
        }
        if stack_every_nth > 1 {
            assert(out@ =~= every_nth(ordered, stack_every_nth as int));
        } else {
            assert(out@ =~= ordered);
        }
    }
    out
}

/// Reversing comes before thinning, and does not depend on it: a reversed
/// selection is the plain selection from the list read backwards. Frame `k`
/// is the path `k` thinning steps from the first, or from the last where the
/// list is reversed, and there is one for each step that the list holds. So
/// the reference frame is the first path, or the last; and without thinning
/// every path is kept.
pub proof fn law_frames_are_read_from_one_end<T>(paths: Seq<T>, reverse: bool, nth: int, k: int)
    ensures
        stacked_frames(paths, true, nth) == stacked_frames(paths.reverse(), false, nth),
        ({
            let frames = stacked_frames(paths, reverse, nth);
            let step = if nth > 1 { nth } else { 1 };
            &&& 0 <= k ==> (k < frames.len() <==> k * step < paths.len())
            &&& 0 <= k < frames.len() ==> frames[k] == (if reverse {
                paths[paths.len() - 1 - k * step]
            } else {
                paths[k * step]
            })
        }),
        paths.len() > 0 ==> {
            &&& stacked_frames(paths, reverse, nth).len() > 0
            &&& stacked_frames(paths, reverse, nth)[0] == (if reverse {
                paths.last()
            } else {
                paths[0]
            })
        },
        nth <= 1 ==> stacked_frames(paths, false, nth) == paths,
        nth <= 1 ==> stacked_frames(paths, true, nth) == paths.reverse(),
{
    let step = if nth > 1 { nth } else { 1 };
    let n = paths.len() as int;
    let count = (n + step - 1) / step;
    vstd::arithmetic::div_mod::lemma_fundamental_div_mod(n + step - 1, step);
    if step == 1 {
        assert(count == n);
    }
    assert(0 <= count) by (nonlinear_arith)
        requires
            count == (n + step - 1) / step,
            0 <= n,
            1 <= step,
    ;
    if 0 <= k {
        assert(k < count <==> k * step < n) by (nonlinear_arith)
            requires
                step * count + (n + step - 1) % step == n + step - 1,
                0 <= (n + step - 1) % step < step,
                1 <= step,
                0 <= k,
        ;
        assert(0 <= k * step) by (nonlinear_arith)
            requires
                0 <= k,
                1 <= step,
        ;
    }
    if n > 0 {
        assert(0 < count) by (nonlinear_arith)
            requires
                step * count + (n + step - 1) % step == n + step - 1,
                0 <= (n + step - 1) % step < step,
                1 <= step,
                0 < n,
        ;
        assert(0 * step == 0);
    }
    assert(k * 1 == k);
    assert(stacked_frames(paths, true, nth) =~= stacked_frames(paths.reverse(), false, nth));
}

/// Indices of the frames marked in `raw`, in order.
pub open spec fn marked(raw: Seq<bool>) -> Seq<int>
    decreases raw.len(),
{
    if raw.len() == 0 {
        Seq::empty()
    } else if raw.last() {
        marked(raw.drop_last()).push(raw.len() - 1)
    } else {
        marked(raw.drop_last())
    }
}

/// Indices of the RAW frames of a run, in order.
pub fn raw_frames(raw: &Vec<bool>) -> (r: Vec<usize>)
    ensures
        r@.len() == marked(raw@).len(),
        forall|k: int| 0 <= k < r@.len() ==> #[trigger] r@[k] == marked(raw@)[k],
{
    let mut out: Vec<usize> = Vec::new();
    let mut i: usize = 0;
    while i < raw.len()
        invariant
            i <= raw@.len(),
            out@.len() == marked(raw@.take(i as int)).len(),
            forall|k: int|
                0 <= k < out@.len() ==> #[trigger] out@[k] == marked(raw@.take(i as int))[k],
        decreases raw@.len() - i,
    {
        proof {
            assert(raw@.take(i + 1).drop_last() == raw@.take(i as int));
        }
        if raw[i] {
            out.push(i);
        }
        i = i + 1;
    }
    assert(raw@.take(raw@.len() as int) == raw@);
    out
}

/// The frames found are the marked ones, each once and in frame order.
pub proof fn law_marked_frames_are_found(raw: Seq<bool>, i: int)
    ensures
        0 <= i < raw.len() ==> (marked(raw).contains(i) <==> raw[i]),
        forall|k: int, l: int|
            0 <= k < l < marked(raw).len() ==> (#[trigger] marked(raw)[k]) < (
            #[trigger] marked(raw)[l]),
        forall|k: int| 0 <= k < marked(raw).len() ==> 0 <= #[trigger] marked(raw)[k] < raw.len(),
    decreases raw.len(),
{
    if raw.len() > 0 {
        let init = raw.drop_last();
        law_marked_frames_are_found(init, i);
        let before = marked(init);
        let all = marked(raw);
        assert forall|k: int| 0 <= k < all.len() implies 0 <= #[trigger] all[k] < raw.len() by {
            if k < before.len() {
                assert(all[k] == before[k]);
            }
        }
        assert forall|k: int, l: int| 0 <= k < l < all.len() implies (#[trigger] all[k]) < (
        #[trigger] all[l]) by {
            assert(all[k] == before[k]);
            if l < before.len() {
                assert(all[l] == before[l]);
            }
        }
        if 0 <= i < raw.len() {
            if i < init.len() {
                assert(init[i] == raw[i]);
                if raw[i] {
                    let k = choose|k: int| 0 <= k < before.len() && before[k] == i;
                    assert(all[k] == i);
                } else if all.contains(i) {
                    let k = choose|k: int| 0 <= k < all.len() && all[k] == i;
                    assert(before[k] == i);
                }
            } else if raw[i] {
                assert(all[all.len() - 1] == i);
            } else if all.contains(i) {
                let k = choose|k: int| 0 <= k < all.len() && all[k] == i;
                assert(before[k] == i);
            }
        }
    }
}

/// How a run aligns its frames.
#[derive(Debug, Clone, Copy, PartialEq, Eq, Structural)]
pub enum AlignmentMode {
    /// Frames are taken as they are.
    Off,
    /// A classical registration.
    Classical,
    /// The transform comes from an alignment network.
    Neural,
}

/// What the alignment pass of a run depends on.
#[derive(Debug, Clone, Copy, PartialEq, Eq, Structural)]
pub struct AlignSetup {
    /// Number of frames, the reference frame included.
    pub n_frames: usize,
    /// Whether frames are blended whole instead of committed tile by tile.
    pub whole_image: bool,
    /// Whether coarse seeds are computed beforehand.
    pub seeding: bool,
    /// Whether an alignment network supplies the transforms.
    pub neural: bool,
}

/// One step of the alignment pass.
#[derive(Debug, Clone, Copy, PartialEq, Eq, Structural)]
pub enum AlignStep {
    /// Report progress.
    Report(PipelineProgress),
    /// Start the whole-image accumulator from the reference frame.
    SeedAccumulator,
    /// Commit every padded tile of the frame.
    CommitTiles { frame: usize },
    /// Load the reference frame as the first rolling reference.
    ReloadReference,
    /// Compute the coarse seeds of all frames after the reference.
    CoarseSeeds,
    /// Run the alignment network over the stack.
    NeuralMatrices,
    /// Load and align the frame against the rolling reference.
    AlignFrame { frame: usize },
    /// Blend the aligned frame into the accumulator.
    BlendFrame { frame: usize },
    /// Narrow the common coverage by the frame's coverage and roll the
    /// reference forward.
    FoldCoverage { frame: usize },
}

/// The step that stores frame `f`.
pub open spec fn store_step(f: int, whole_image: bool) -> AlignStep {
    if f == 0 {
        if whole_image {
            AlignStep::SeedAccumulator
        } else {
            AlignStep::CommitTiles { frame: 0 }
        }
    } else if whole_image {
        AlignStep::BlendFrame { frame: f as usize }
    } else {
        AlignStep::CommitTiles { frame: f as usize }
    }
}

/// The steps of frame `f`, a frame after the reference.
pub open spec fn frame_steps(setup: AlignSetup, f: int) -> Seq<AlignStep> {
    seq![
        AlignStep::AlignFrame { frame: f as usize },
        store_step(f, setup.whole_image),
        AlignStep::FoldCoverage { frame: f as usize },
        AlignStep::Report(
            PipelineProgress::AlignFrame { current: (f + 1) as usize, total: setup.n_frames },
        ),
    ]
}

/// The steps of the frames from 1 up to, not including, `upto`.
pub open spec fn frames_until(setup: AlignSetup, upto: int) -> Seq<AlignStep>
    decreases upto,
{
    if upto <= 1 {
        Seq::empty()
    } else {
        frames_until(setup, upto - 1) + frame_steps(setup, upto - 1)
    }
}

/// The steps before the first frame after the reference.
pub open spec fn lead_in(setup: AlignSetup) -> Seq<AlignStep> {
    let start = seq![
        AlignStep::Report(PipelineProgress::AlignStart { total: setup.n_frames }),
        store_step(0, setup.whole_image),
        AlignStep::Report(PipelineProgress::AlignFrame { current: 1, total: setup.n_frames }),
    ];
    if setup.n_frames > 1 {
        start + seq![AlignStep::ReloadReference] + (if setup.seeding {
            seq![AlignStep::CoarseSeeds]
        } else {
            Seq::empty()
        }) + (if setup.neural {
            seq![AlignStep::NeuralMatrices]
        } else {
            Seq::empty()
        })
    } else {
        start
    }
}

/// All steps of the alignment pass.
pub open spec fn align_steps(setup: AlignSetup) -> Seq<AlignStep> {
    lead_in(setup) + frames_until(setup, setup.n_frames as int) + seq![
        AlignStep::Report(PipelineProgress::AlignDone),
    ]
}

/// The schedule of the alignment pass.
pub fn alignment_schedule(setup: AlignSetup) -> (r: Vec<AlignStep>)
    requires
        setup.n_frames >= 1,
    ensures
        r@ == align_steps(setup),
{
    let n: usize = setup.n_frames;
    let mut steps: Vec<AlignStep> = Vec::new();
    steps.push(AlignStep::Report(PipelineProgress::AlignStart { total: n }));
    if setup.whole_image {
        steps.push(AlignStep::SeedAccumulator);
    } else {
        steps.push(AlignStep::CommitTiles { frame: 0 });
    }
    steps.push(AlignStep::Report(PipelineProgress::AlignFrame { current: 1, total: n }));
    if n > 1 {
        steps.push(AlignStep::ReloadReference);
        if setup.seeding {
            steps.push(AlignStep::CoarseSeeds);
        }
        if setup.neural {
            steps.push(AlignStep::NeuralMatrices);
        }
    }
    assert(steps@ =~= lead_in(setup));
    let mut f: usize = 1;
    while f < n
        invariant
            1 <= f <= n,
            n == setup.n_frames,
            steps@ == lead_in(setup) + frames_until(setup, f as int),
        decreases n - f,
    {
        let ghost before = steps@;
        steps.push(AlignStep::AlignFrame { frame: f });
        if setup.whole_image {
            steps.push(AlignStep::BlendFrame { frame: f });
        } else {
            steps.push(AlignStep::CommitTiles { frame: f });
        }
        steps.push(AlignStep::FoldCoverage { frame: f });
        steps.push(AlignStep::Report(PipelineProgress::AlignFrame { current: f + 1, total: n }));
        assert(steps@ =~= before + frame_steps(setup, f as int));
        assert(frames_until(setup, f + 1) == frames_until(setup, f as int) + frame_steps(
            setup,
            f as int,
        ));
        f = f + 1;
    }
    steps.push(AlignStep::Report(PipelineProgress::AlignDone));
    steps
}

/// The progress events among some steps, in order.
pub open spec fn reports(steps: Seq<AlignStep>) -> Seq<PipelineProgress>
    decreases steps.len(),
{
    if steps.len() == 0 {
        Seq::empty()
    } else {
        match steps.last() {
            AlignStep::Report(p) => reports(steps.drop_last()).push(p),
            _ => reports(steps.drop_last()),
        }
    }
}

/// Frame indices stored by some steps, in order.
pub open spec fn stored(steps: Seq<AlignStep>) -> Seq<int>
    decreases steps.len(),
{
    if steps.len() == 0 {
        Seq::empty()
    } else {
        match steps.last() {
            AlignStep::SeedAccumulator => stored(steps.drop_last()).push(0),
            AlignStep::CommitTiles { frame } => stored(steps.drop_last()).push(frame as int),
            AlignStep::BlendFrame { frame } => stored(steps.drop_last()).push(frame as int),
            _ => stored(steps.drop_last()),
        }
    }
}

proof fn lemma_reports_concat(a: Seq<AlignStep>, b: Seq<AlignStep>)
    ensures
        reports(a + b) == reports(a) + reports(b),
        stored(a + b) == stored(a) + stored(b),
    decreases b.len(),
{
    if b.len() == 0 {
        assert(a + b == a);
    } else {
        assert((a + b).drop_last() == a + b.drop_last());
        assert((a + b).last() == b.last());
        lemma_reports_concat(a, b.drop_last());
    }
}

proof fn lemma_lead_in(setup: AlignSetup)
    ensures
        reports(lead_in(setup)) == seq![
            PipelineProgress::AlignStart { total: setup.n_frames },
            PipelineProgress::AlignFrame { current: 1, total: setup.n_frames },
        ],
        stored(lead_in(setup)) == seq![0int],
{
    reveal_with_fuel(reports, 4);
    reveal_with_fuel(stored, 4);
    let start = seq![
        AlignStep::Report(PipelineProgress::AlignStart { total: setup.n_frames }),
        store_step(0, setup.whole_image),
        AlignStep::Report(PipelineProgress::AlignFrame { current: 1, total: setup.n_frames }),
    ];
    assert(start.drop_last().drop_last().drop_last() =~= Seq::<AlignStep>::empty());
    assert(reports(start) =~= seq![
        PipelineProgress::AlignStart { total: setup.n_frames },
        PipelineProgress::AlignFrame { current: 1, total: setup.n_frames },
    ]);
    assert(stored(start) =~= seq![0int]);
    let a = seq![AlignStep::ReloadReference];
    let b = if setup.seeding {
        seq![AlignStep::CoarseSeeds]
    } else {
        Seq::empty()
    };
    let c = if setup.neural {
        seq![AlignStep::NeuralMatrices]
    } else {
        Seq::empty()
    };
    assert(a.drop_last() =~= Seq::<AlignStep>::empty());
    if setup.seeding {
        assert(b.drop_last() =~= Seq::<AlignStep>::empty());
    }
    if setup.neural {
        assert(c.drop_last() =~= Seq::<AlignStep>::empty());
    }
    lemma_reports_concat(start, a);
    lemma_reports_concat(start + a, b);
    lemma_reports_concat(start + a + b, c);
}

proof fn lemma_frames_until(setup: AlignSetup, upto: int)
    requires
        1 <= upto <= setup.n_frames,
    ensures
        reports(frames_until(setup, upto)) == Seq::new(
            (upto - 1) as nat,
            |k: int|
                PipelineProgress::AlignFrame { current: (k + 2) as usize, total: setup.n_frames },
        ),
        stored(frames_until(setup, upto)) == Seq::new((upto - 1) as nat, |k: int| k + 1),
    decreases upto,
{
    if upto > 1 {
        lemma_frames_until(setup, upto - 1);
        let f = upto - 1;
        let s = frame_steps(setup, f);
        lemma_reports_concat(frames_until(setup, f), s);
        reveal_with_fuel(reports, 5);
        reveal_with_fuel(stored, 5);
        assert(s.drop_last().drop_last().drop_last().drop_last() =~= Seq::<AlignStep>::empty());
        assert(reports(s) =~= seq![
            PipelineProgress::AlignFrame { current: (f + 1) as usize, total: setup.n_frames },
        ]);
        assert(stored(s) =~= seq![f]);
    }
}

/// The progress of the alignment pass: its start, then every frame from 1 to
/// `n_frames` in order, then its end.
pub proof fn law_alignment_progress(setup: AlignSetup)
    requires
        setup.n_frames >= 1,
    ensures
        reports(align_steps(setup)) == seq![
            PipelineProgress::AlignStart { total: setup.n_frames },
        ] + Seq::new(
            setup.n_frames as nat,
            |k: int|
                PipelineProgress::AlignFrame { current: (k + 1) as usize, total: setup.n_frames },
        ) + seq![PipelineProgress::AlignDone],
{
    let n = setup.n_frames as int;
    lemma_lead_in(setup);
    lemma_frames_until(setup, n);
    let end = seq![AlignStep::Report(PipelineProgress::AlignDone)];
    lemma_reports_concat(lead_in(setup), frames_until(setup, n));
    lemma_reports_concat(lead_in(setup) + frames_until(setup, n), end);
    reveal_with_fuel(reports, 2);
    assert(end.drop_last() =~= Seq::<AlignStep>::empty());
    assert(reports(end) =~= seq![PipelineProgress::AlignDone]);
    assert(reports(align_steps(setup)) =~= seq![
        PipelineProgress::AlignStart { total: setup.n_frames },
    ] + Seq::new(
        setup.n_frames as nat,
        |k: int| PipelineProgress::AlignFrame { current: (k + 1) as usize, total: setup.n_frames },
    ) + seq![PipelineProgress::AlignDone]);
}

/// Every frame is stored exactly once, in frame order, before the alignment
/// pass ends.
pub proof fn law_every_frame_stored_once(setup: AlignSetup)
    requires
        setup.n_frames >= 1,
    ensures
        stored(align_steps(setup)) == Seq::new(setup.n_frames as nat, |k: int| k),
        align_steps(setup).last() == AlignStep::Report(PipelineProgress::AlignDone),
{
    let n = setup.n_frames as int;
    lemma_lead_in(setup);
    lemma_frames_until(setup, n);
    let end = seq![AlignStep::Report(PipelineProgress::AlignDone)];
    lemma_reports_concat(lead_in(setup), frames_until(setup, n));
    lemma_reports_concat(lead_in(setup) + frames_until(setup, n), end);
    reveal_with_fuel(stored, 2);
    assert(end.drop_last() =~= Seq::<AlignStep>::empty());
    assert(stored(end) =~= Seq::<int>::empty());
    assert(stored(align_steps(setup)) =~= Seq::new(setup.n_frames as nat, |k: int| k));
}

/// The frames aligned by some steps, in order.
pub open spec fn aligned(steps: Seq<AlignStep>) -> Seq<int>
    decreases steps.len(),
{
    if steps.len() == 0 {
        Seq::empty()
    } else {
        match steps.last() {
            AlignStep::AlignFrame { frame } => aligned(steps.drop_last()).push(frame as int),
            _ => aligned(steps.drop_last()),
        }
    }
}

proof fn lemma_aligned_concat(a: Seq<AlignStep>, b: Seq<AlignStep>)
    ensures
        aligned(a + b) == aligned(a) + aligned(b),
    decreases b.len(),
{
    if b.len() == 0 {
        assert(a + b == a);
    } else {
        assert((a + b).drop_last() == a + b.drop_last());
        assert((a + b).last() == b.last());
        lemma_aligned_concat(a, b.drop_last());
    }
}

proof fn lemma_nothing_aligned(steps: Seq<AlignStep>)
    requires
        forall|i: int| 0 <= i < steps.len() ==> !((#[trigger] steps[i]) is AlignFrame),
    ensures
        aligned(steps) == Seq::<int>::empty(),
    decreases steps.len(),
{
    if steps.len() > 0 {
        assert(!(steps[steps.len() - 1] is AlignFrame));
        assert forall|i: int| 0 <= i < steps.drop_last().len() implies !((
        #[trigger] steps.drop_last()[i]) is AlignFrame) by {
            assert(steps.drop_last()[i] == steps[i]);
        }
        lemma_nothing_aligned(steps.drop_last());
    }
}

proof fn lemma_frames_aligned(setup: AlignSetup, upto: int)
    requires
        1 <= upto <= setup.n_frames,
    ensures
        aligned(frames_until(setup, upto)) == Seq::new((upto - 1) as nat, |k: int| k + 1),
    decreases upto,
{
    if upto > 1 {
        lemma_frames_aligned(setup, upto - 1);
        let f = upto - 1;
        let s = frame_steps(setup, f);
        lemma_aligned_concat(frames_until(setup, f), s);
        reveal_with_fuel(aligned, 5);
        assert(s.drop_last().drop_last().drop_last().drop_last() =~= Seq::<AlignStep>::empty());
        assert(aligned(s) =~= seq![f]);
    }
}

/// Every frame after the reference is loaded and aligned exactly once, in
/// frame order.
pub proof fn law_every_frame_aligned_once(setup: AlignSetup)
    requires
        setup.n_frames >= 1,
    ensures
        aligned(align_steps(setup)) == Seq::new((setup.n_frames - 1) as nat, |k: int| k + 1),
{
    let n = setup.n_frames as int;
    let end = seq![AlignStep::Report(PipelineProgress::AlignDone)];
    lemma_frames_aligned(setup, n);
    lemma_nothing_aligned(lead_in(setup));
    lemma_nothing_aligned(end);
    lemma_aligned_concat(lead_in(setup), frames_until(setup, n));
    lemma_aligned_concat(lead_in(setup) + frames_until(setup, n), end);
    assert(aligned(align_steps(setup)) =~= Seq::new((n - 1) as nat, |k: int| k + 1));
}

proof fn lemma_frame_at(setup: AlignSetup, upto: int, f: int)
    requires
        1 <= f < upto <= setup.n_frames,
    ensures
        frames_until(setup, upto).len() == 4 * (upto - 1),
        frames_until(setup, upto)[4 * (f - 1)] == frame_steps(setup, f)[0],
        frames_until(setup, upto)[4 * (f - 1) + 1] == frame_steps(setup, f)[1],
        frames_until(setup, upto)[4 * (f - 1) + 2] == frame_steps(setup, f)[2],
        frames_until(setup, upto)[4 * (f - 1) + 3] == frame_steps(setup, f)[3],
    decreases upto,
{
    if upto > 2 {
        lemma_frame_at(setup, upto - 1, if f < upto - 1 { f } else { 1 });
    } else {
        assert(frames_until(setup, 1).len() == 0);
    }
}

/// What stands around each step of the alignment pass. A frame is aligned,
/// then stored, then folded into the coverage, then reported, with nothing in
/// between: what is stored as frame `f` is the frame that was aligned last.
/// Frames are blended where the whole image is fused and committed tile by
/// tile elsewhere; the reference frame is stored before any frame is aligned,
/// unaligned.
#[verifier::rlimit(50)]
pub proof fn law_frame_is_stored_once_aligned(setup: AlignSetup, i: int)
    requires
        setup.n_frames >= 1,
        0 <= i < align_steps(setup).len(),
    ensures
        ({
            let steps = align_steps(setup);
            let n = setup.n_frames;
            match steps[i] {
                AlignStep::AlignFrame { frame } => {
                    &&& 1 <= frame < n
                    &&& i + 3 < steps.len()
                    &&& steps[i + 1] == (if setup.whole_image {
                        AlignStep::BlendFrame { frame }
                    } else {
                        AlignStep::CommitTiles { frame }
                    })
                    &&& steps[i + 2] == (AlignStep::FoldCoverage { frame })
                    &&& steps[i + 3] == AlignStep::Report(
                        PipelineProgress::AlignFrame { current: (frame + 1) as usize, total: n },
                    )
                },
                AlignStep::BlendFrame { frame } => {
                    &&& setup.whole_image
                    &&& i >= 1 && steps[i - 1] == (AlignStep::AlignFrame { frame })
                },
                AlignStep::CommitTiles { frame } => {
                    &&& !setup.whole_image
                    &&& if frame == 0 {
                        i == 1
                    } else {
                        i >= 1 && steps[i - 1] == (AlignStep::AlignFrame { frame })
                    }
                },
                AlignStep::SeedAccumulator => setup.whole_image && i == 1,
                AlignStep::FoldCoverage { frame } => {
                    i >= 2 && steps[i - 2] == (AlignStep::AlignFrame { frame })
                },
                AlignStep::ReloadReference => n > 1 && i == 3,
                AlignStep::CoarseSeeds => n > 1 && setup.seeding && i == 4,
                AlignStep::NeuralMatrices => n > 1 && setup.neural && i == (if setup.seeding {
                    5int
                } else {
                    4
                }),
                AlignStep::Report(_) => true,
            }
        }),
{
    let n = setup.n_frames as int;
    let lead = lead_in(setup);
    let frames = frames_until(setup, n);
    let steps = align_steps(setup);
    if i < lead.len() {
        assert(steps[i] == lead[i]);
    } else if i < lead.len() + frames.len() {
        let at = i - lead.len();
        let f = at / 4 + 1;
        if n == 1 {
            assert(frames.len() == 0);
        } else {
            lemma_frame_at(setup, n, 1);
        }
        lemma_frame_at(setup, n, f);
        let first = lead.len() + 4 * (f - 1);
        assert(steps[first] == frames[4 * (f - 1)]);
        assert(steps[first + 1] == frames[4 * (f - 1) + 1]);
        assert(steps[first + 2] == frames[4 * (f - 1) + 2]);
        assert(steps[first + 3] == frames[4 * (f - 1) + 3]);
        if at % 4 == 0 {
            assert(i == first);
        } else if at % 4 == 1 {
            assert(i == first + 1);
        } else if at % 4 == 2 {
            assert(i == first + 2);
        } else {
            assert(i == first + 3);
        }
    } else {
        assert(steps[i] == AlignStep::Report(PipelineProgress::AlignDone));
    }
}

/// What the frames after the reference need is there before the first of them
/// is aligned: the reference is loaded again as the first rolling reference,
/// and coarse seeds and network matrices are computed where they are asked
/// for. A single frame needs none of it.
pub proof fn law_alignment_is_prepared(setup: AlignSetup)
    requires
        setup.n_frames >= 1,
    ensures
        ({
            let steps = align_steps(setup);
            let reload = AlignStep::ReloadReference;
            let seeds = AlignStep::CoarseSeeds;
            let matrices = AlignStep::NeuralMatrices;
            &&& steps.contains(reload) <==> setup.n_frames > 1
            &&& steps.contains(seeds) <==> setup.n_frames > 1 && setup.seeding
            &&& steps.contains(matrices) <==> setup.n_frames > 1 && setup.neural
            &&& forall|i: int, j: int|
                0 <= i < steps.len() && 0 <= j < steps.len() && ((#[trigger] steps[i]) == reload
                    || steps[i] == seeds || steps[i] == matrices) && (
                #[trigger] steps[j]) is AlignFrame ==> i < j
        }),
{
    let steps = align_steps(setup);
    let lead = lead_in(setup);
    let n = setup.n_frames as int;
    let frames = frames_until(setup, n);
    if n > 1 {
        assert(steps[3] == AlignStep::ReloadReference);
        if setup.seeding {
            assert(steps[4] == AlignStep::CoarseSeeds);
        }
        if setup.neural {
            assert(steps[if setup.seeding { 5int } else { 4 }] == AlignStep::NeuralMatrices);
        }
    }
    assert forall|i: int| 0 <= i < steps.len() && (steps[i] == AlignStep::ReloadReference
        || steps[i] == AlignStep::CoarseSeeds || steps[i]
        == AlignStep::NeuralMatrices) implies n > 1 && i < lead.len() && (steps[i]
        == AlignStep::CoarseSeeds ==> setup.seeding) && (steps[i]
        == AlignStep::NeuralMatrices ==> setup.neural) by {
        law_frame_is_stored_once_aligned(setup, i);
    }
    assert forall|j: int| 0 <= j < steps.len() && (#[trigger] steps[j]) is AlignFrame implies j
        >= lead.len() by {
        if j < lead.len() {
            assert(steps[j] == lead[j]);
        }
    }
}

/// Where the transform that starts a frame's registration comes from.
#[derive(Debug, Clone, Copy, PartialEq, Eq, Structural)]
pub enum SeedSource {
    /// The frame's coarse seed.
    Coarse,
    /// The transform found for the previous frame.
    Previous,
}

/// Which matrix an alignment network gives a frame.
#[derive(Debug, Clone, Copy, PartialEq, Eq, Structural)]
pub enum NeuralMatrix {
    /// The matrix predicted for the frame.
    Predicted,
    /// The identity: the network predicted none for this frame.
    Identity,
}

/// How one frame is aligned.
#[derive(Debug, Clone, Copy, PartialEq, Eq, Structural)]
pub enum FrameAlignment {
    /// Classical registration in the run's own mode.
    Classical { seed: SeedSource },
    /// Classical registration that starts from the network's matrix, in
    /// registration mode whatever the run's mode.
    NeuralSeeded { matrix: NeuralMatrix },
    /// The network's matrix is the frame's transform.
    NeuralDirect { matrix: NeuralMatrix },
}

/// How frame `frame` (1 or later) is aligned. `matrices` is the number of
/// matrices that an alignment network returned, `None` where none ran;
/// `coarse[k]` says whether frame `k + 1` has a coarse seed.
pub fn frame_alignment(
    frame: usize,
    matrices: Option<usize>,
    refine_classically: bool,
    coarse: &Vec<bool>,
) -> (r: FrameAlignment)
    requires
        frame >= 1,
    ensures
        r == (match matrices {
            Some(count) => {
                let matrix = if frame < count {
                    NeuralMatrix::Predicted
                } else {
                    NeuralMatrix::Identity
                };
                if refine_classically {
                    FrameAlignment::NeuralSeeded { matrix }
                } else {
                    FrameAlignment::NeuralDirect { matrix }
                }
            },
            None => FrameAlignment::Classical {
                seed: if frame - 1 < coarse@.len() && coarse@[frame - 1] {
                    SeedSource::Coarse
                } else {
                    SeedSource::Previous
                },
            },
        }),
{
    match matrices {
        Some(count) => {
            let matrix = if frame < count {
                NeuralMatrix::Predicted
            } else {
                NeuralMatrix::Identity
            };
            if refine_classically {
                FrameAlignment::NeuralSeeded { matrix }
            } else {
                FrameAlignment::NeuralDirect { matrix }
            }
        },
        None => {
            let seed = if frame - 1 < coarse.len() && coarse[frame - 1] {
                SeedSource::Coarse
            } else {
                SeedSource::Previous
            };
            FrameAlignment::Classical { seed }
        },
    }
}

/// A frame is registered classically exactly where no network ran, and then
/// starts from its own coarse seed where it has one. Where a network ran, its
/// matrix is refined where that is asked for and is the transform elsewhere,
/// and a frame beyond its matrices is left where it is.
pub proof fn law_alignment_follows_the_network(
    frame: usize,
    matrices: Option<usize>,
    refine_classically: bool,
    coarse: &Vec<bool>,
    r: FrameAlignment,
)
    requires
        frame >= 1,
        call_ensures(frame_alignment, (frame, matrices, refine_classically, coarse), r),
    ensures
        r is Classical <==> matrices is None,
        r is NeuralSeeded <==> matrices is Some && refine_classically,
        r matches FrameAlignment::Classical { seed } ==> (seed == SeedSource::Coarse <==> frame
            <= coarse@.len() && coarse@[frame - 1]),
        r matches FrameAlignment::NeuralSeeded { matrix } ==> (matrix == NeuralMatrix::Predicted
            <==> frame < matrices->0),
        r matches FrameAlignment::NeuralDirect { matrix } ==> (matrix == NeuralMatrix::Predicted
            <==> frame < matrices->0),
{
}

/// Whether the common coverage of a run is resolved to a crop: only where
/// cropping is on and alignment moved any frame.
pub fn resolves_crop(crop_to_common_area: bool, n_frames: usize, mode: AlignmentMode) -> (r: bool)
    ensures
        r == (crop_to_common_area && n_frames > 1 && mode != AlignmentMode::Off),
{
    crop_to_common_area && n_frames > 1 && mode != AlignmentMode::Off
}

/// The schedule of the alignment pass: every frame after the reference is
/// aligned once, in frame order; every frame is stored once, in frame order;
/// and a frame is stored right after it was aligned and before its coverage is
/// folded in.
pub proof fn law_schedule_aligns_every_frame(setup: AlignSetup, r: Vec<AlignStep>, i: int)
    requires
        setup.n_frames >= 1,
        call_ensures(alignment_schedule, (setup,), r),
        0 <= i < r@.len(),
    ensures
        aligned(r@) == Seq::new((setup.n_frames - 1) as nat, |k: int| k + 1),
        stored(r@) == Seq::new(setup.n_frames as nat, |k: int| k),
        r@[i] matches AlignStep::AlignFrame { frame } ==> {
            &&& i + 2 < r@.len()
            &&& r@[i + 1] == (AlignStep::BlendFrame { frame }) || r@[i + 1]
                == (AlignStep::CommitTiles { frame })
            &&& r@[i + 2] == (AlignStep::FoldCoverage { frame })
        },
{
    law_every_frame_aligned_once(setup);
    law_every_frame_stored_once(setup);
    law_frame_is_stored_once_aligned(setup, i);
}

/// The frames that a run stacks: frame `k` is the path `k` thinning steps from
/// the first, or from the last where the order is reversed, thinned or not.
pub proof fn law_selection_reads_from_one_end(
    paths: Vec<String>,
    sort_reverse: bool,
    stack_every_nth: u32,
    r: Vec<String>,
    k: int,
)
    requires
        call_ensures(select_frames, (&paths, sort_reverse, stack_every_nth), r),
        0 <= k,
    ensures
        ({
            let step = if stack_every_nth > 1 { stack_every_nth as int } else { 1 };
            &&& k < r@.len() <==> k * step < paths@.len()
            &&& k < r@.len() ==> r@[k] == (if sort_reverse {
                paths@[paths@.len() - 1 - k * step]
            } else {
                paths@[k * step]
            })
        }),
{
    law_frames_are_read_from_one_end(paths@, sort_reverse, stack_every_nth as int, k);
}

} // verus!
