//! Tiled inference: tile windows over an image, and the plan of fusing a
//! stack with a network.

use vstd::prelude::*;
use crate::model::{dilation_sum, receptive_radius, ModelSize, fusion_dims};
use crate::runtime::FusionStrategy;

verus! {

/// Tile side and overlap, in pixels.
#[derive(Debug, Clone, Copy, PartialEq, Eq, Structural)]
pub struct TileConfig {
    pub tile: usize,
    pub overlap: usize,
}

/// Smallest overlap that is derived for a network.
pub const MIN_MODEL_OVERLAP: usize = 96;

impl Default for TileConfig {
    fn default() -> (r: Self)
        ensures
            r == (TileConfig { tile: 512, overlap: 64 }),
    {
        TileConfig { tile: 512, overlap: 64 }
    }
}

impl TileConfig {
    /// The tiles for a network: the default side, and an overlap that covers
    /// its receptive field.
    pub fn for_model(receptive_field: usize) -> (r: Self)
        ensures
            r.tile == 512,
            r.overlap == (if receptive_field > MIN_MODEL_OVERLAP {
                receptive_field
            } else {
                MIN_MODEL_OVERLAP
            }),
    {
        let overlap: usize = if receptive_field > MIN_MODEL_OVERLAP {
            receptive_field
        } else {
            MIN_MODEL_OVERLAP
        };
        TileConfig { tile: 512, overlap }
    }

    /// Distance between neighbouring tiles: the side less the overlap, at
    /// least one.
    pub open spec fn step(self) -> int {
        if self.overlap < self.tile {
            self.tile - self.overlap
        } else {
            1
        }
    }
}

/// The tiles used where nothing is known of the network.
pub fn recommended_tile() -> (r: TileConfig)
    ensures
        r == (TileConfig { tile: 512, overlap: 96 }),
{
    TileConfig { tile: 512, overlap: 96 }
}

/// The overlap of a preset's tiles covers its receptive field.
pub proof fn law_preset_overlap_is_enough(size: ModelSize)
    ensures
        receptive_radius(fusion_dims(size).1 as nat) <= MIN_MODEL_OVERLAP,
{
    reveal_with_fuel(dilation_sum, 13);
}

/// Distance between neighbouring tiles.
pub fn tile_step(cfg: TileConfig) -> (r: usize)
    ensures
        r == cfg.step(),
{
    if cfg.overlap < cfg.tile {
        cfg.tile - cfg.overlap
    } else {
        1
    }
}

/// The offsets `0`, `step`, `2 * step`, and so on, up to `last`.
pub open spec fn regular_offsets(last: int, step: int) -> Seq<int> {
    Seq::new((last / step + 1) as nat, |k: int| k * step)
}

/// Where tiles of side `tile` start along a side of length `dim`: at every
/// `step`-th pixel as long as they fit, and once more so that one ends at the
/// end. A side shorter than a tile has a single one, at 0.
pub open spec fn offsets_of(dim: int, tile: int, step: int) -> Seq<int> {
    if dim < tile {
        seq![0]
    } else {
        let last = dim - tile;
        let regular = regular_offsets(last, step);
        if regular.last() == last {
            regular
        } else {
            regular.push(last)
        }
    }
}

/// Numbers as integers.
pub open spec fn ints(s: Seq<usize>) -> Seq<int> {
    Seq::new(s.len(), |k: int| s[k] as int)
}

/// Where tiles of side `tile` start along a side of length `dim`.
pub fn tile_offsets(dim: usize, tile: usize, step: usize) -> (r: Vec<usize>)
    requires
        step >= 1,
    ensures
        ints(r@) == offsets_of(dim as int, tile as int, step as int),
{
    let mut offsets: Vec<usize> = Vec::new();
    if dim < tile {
        offsets.push(0);
        assert(ints(offsets@) =~= seq![0int]);
        return offsets;
    }
    let last: usize = dim - tile;
    let mut pos: usize = 0;
    offsets.push(0);
    proof {
        assert((offsets@.len() - 1) * step == 0) by (nonlinear_arith)
            requires
                offsets@.len() == 1,
        ;
    }
    while step <= last - pos
        invariant
            step >= 1,
            pos <= last,
            offsets@.len() >= 1,
            pos == (offsets@.len() - 1) * step,
            forall|k: int| 0 <= k < offsets@.len() ==> #[trigger] offsets@[k] == k * step,
        decreases last - pos,
    {
        let ghost n = offsets@.len() as int;
        pos = pos + step;
        offsets.push(pos);
        proof {
            assert(n * step == (n - 1) * step + step) by (nonlinear_arith);
        }
    }
    proof {
        let n = offsets@.len() as int;
        vstd::arithmetic::div_mod::lemma_fundamental_div_mod_converse(
            last as int,
            step as int,
            n - 1,
            last - pos,
        );
        assert(ints(offsets@) =~= regular_offsets(last as int, step as int));
    }
    if pos != last {
        let ghost regular = offsets@;
        offsets.push(last);
        assert(ints(offsets@) =~= ints(regular).push(last as int));
    }
    offsets
}

proof fn lemma_regular(last: int, step: int)
    requires
        0 <= last,
        1 <= step,
    ensures
        regular_offsets(last, step).len() == last / step + 1,
        0 <= last / step,
        (last / step) * step <= last < (last / step) * step + step,
{
    vstd::arithmetic::div_mod::lemma_fundamental_div_mod(last, step);
    assert(step * (last / step) == (last / step) * step) by (nonlinear_arith);
    assert(0 <= last / step) by (nonlinear_arith)
        requires
            0 <= last,
            1 <= step,
    ;
}

/// The first tile starts at 0; offsets grow from tile to tile, by `step` at
/// most; and every tile that fits the side ends inside it, the last one at its
/// end.
pub proof fn law_offsets_are_ordered(dim: int, tile: int, step: int)
    requires
        0 <= dim,
        0 <= tile,
        1 <= step,
    ensures
        ({
            let off = offsets_of(dim, tile, step);
            &&& off.len() >= 1
            &&& off[0] == 0
            &&& forall|k: int| 0 <= k < off.len() ==> 0 <= #[trigger] off[k]
            &&& forall|k: int|
                0 <= k < off.len() - 1 ==> #[trigger] off[k] < off[k + 1] <= off[k] + step
            &&& tile <= dim ==> off.last() + tile == dim && forall|k: int|
                0 <= k < off.len() ==> #[trigger] off[k] + tile <= dim
        }),
{
    if tile <= dim {
        let last = dim - tile;
        let n = last / step;
        lemma_regular(last, step);
        let regular = regular_offsets(last, step);
        let off = offsets_of(dim, tile, step);
        assert(0 * step == 0) by (nonlinear_arith);
        assert forall|k: int| 0 <= k <= n implies 0 <= #[trigger] (k * step) <= last by {
            assert(0 <= k * step <= n * step) by (nonlinear_arith)
                requires
                    0 <= k <= n,
                    1 <= step,
            ;
        }
        assert forall|k: int| 0 <= k < off.len() implies 0 <= #[trigger] off[k] <= last by {
            if k <= n {
                assert(off[k] == k * step);
            }
        }
        assert forall|k: int| 0 <= k < off.len() - 1 implies #[trigger] off[k] < off[k + 1]
            <= off[k] + step by {
            assert(off[k] == k * step);
            assert((k + 1) * step == k * step + step) by (nonlinear_arith);
            if k + 1 <= n {
                assert(off[k + 1] == (k + 1) * step);
            } else {
                assert(regular.last() == n * step);
            }
        }
    }
}

/// Every pixel of a side lies in some tile, as long as tiles are not further
/// apart than they are long.
pub proof fn law_offsets_cover(dim: int, tile: int, step: int, x: int)
    requires
        1 <= step <= tile,
        0 <= x < dim,
    ensures
        exists|k: int|
            0 <= k < offsets_of(dim, tile, step).len() && #[trigger] offsets_of(
                dim,
                tile,
                step,
            )[k] <= x < offsets_of(dim, tile, step)[k] + tile,
{
    let off = offsets_of(dim, tile, step);
    if dim < tile {
        assert(off[0] <= x < off[0] + tile);
    } else {
        let last = dim - tile;
        lemma_regular(last, step);
        let regular = regular_offsets(last, step);
        if x >= last {
            assert(off[off.len() - 1] == last);
        } else {
            let k = x / step;
            vstd::arithmetic::div_mod::lemma_fundamental_div_mod(x, step);
            assert(step * k == k * step) by (nonlinear_arith);
            assert(0 <= k) by (nonlinear_arith)
                requires
                    k == x / step,
                    0 <= x,
                    1 <= step,
            ;
            assert(k <= last / step) by (nonlinear_arith)
                requires
                    k * step <= x,
                    x < last,
                    last < (last / step) * step + step,
                    1 <= step,
            ;
            assert(off[k] == k * step);
        }
    }
}

/// A stretch of a side: where it starts and how long it is.
#[derive(Debug, Clone, Copy, PartialEq, Eq, Structural)]
pub struct Span {
    pub start: usize,
    pub len: usize,
}

/// The stretches of a side that tiles cover: each as long as a tile, or as the
/// rest of the side where that is shorter.
pub open spec fn spans_of(dim: int, tile: int, step: int) -> Seq<(int, int)> {
    let off = offsets_of(dim, tile, step);
    Seq::new(
        off.len(),
        |k: int|
            (
                off[k],
                if tile <= dim - off[k] {
                    tile
                } else {
                    dim - off[k]
                },
            ),
    )
}

/// Spans as numbers.
pub open spec fn span_numbers(s: Seq<Span>) -> Seq<(int, int)> {
    Seq::new(s.len(), |k: int| (s[k].start as int, s[k].len as int))
}

fn tile_spans(dim: usize, tile: usize, step: usize) -> (r: Vec<Span>)
    requires
        step >= 1,
    ensures
        span_numbers(r@) == spans_of(dim as int, tile as int, step as int),
{
    let offsets = tile_offsets(dim, tile, step);
    let ghost off = offsets_of(dim as int, tile as int, step as int);
    proof {
        law_offsets_are_ordered(dim as int, tile as int, step as int);
        assert forall|k: int| 0 <= k < offsets@.len() implies #[trigger] offsets@[k] == off[k]
            && offsets@[k] <= dim by {
            assert(ints(offsets@)[k] == offsets@[k]);
        }
        assert(ints(offsets@).len() == offsets@.len());
    }
    let mut spans: Vec<Span> = Vec::new();
    let mut k: usize = 0;
    while k < offsets.len()
        invariant
            k <= offsets@.len(),
            offsets@.len() == off.len(),
            off == offsets_of(dim as int, tile as int, step as int),
            forall|i: int|
                0 <= i < offsets@.len() ==> #[trigger] offsets@[i] == off[i] && offsets@[i] <= dim,
            spans@.len() == k,
            forall|i: int|
                0 <= i < k ==> (#[trigger] spans@[i]).start == off[i] && spans@[i].len == (if tile
                    <= dim - off[i] {
                    tile as int
                } else {
                    dim - off[i]
                }),
        decreases offsets@.len() - k,
    {
        let start: usize = offsets[k];
        let rest: usize = dim - start;
        let len: usize = if tile <= rest {
            tile
        } else {
            rest
        };
        spans.push(Span { start, len });
        k = k + 1;
    }
    assert(span_numbers(spans@) =~= spans_of(dim as int, tile as int, step as int));
    spans
}

/// How an image is handed to a network: whole, or tile by tile over the rows
/// and columns of a grid.
#[derive(Debug, PartialEq, Eq)]
pub enum TilePlan {
    Whole,
    Grid { rows: Vec<Span>, cols: Vec<Span> },
}

/// Whether `plan` is the plan of an image of size `h` x `w`.
pub open spec fn is_tile_plan(plan: TilePlan, h: int, w: int, cfg: TileConfig) -> bool {
    match plan {
        TilePlan::Whole => h <= cfg.tile && w <= cfg.tile,
        TilePlan::Grid { rows, cols } => {
            &&& !(h <= cfg.tile && w <= cfg.tile)
            &&& span_numbers(rows@) == spans_of(h, cfg.tile as int, cfg.step())
            &&& span_numbers(cols@) == spans_of(w, cfg.tile as int, cfg.step())
        },
    }
}

/// How an image of size `h` x `w` is handed to a network.
pub fn tile_plan(h: usize, w: usize, cfg: TileConfig) -> (r: TilePlan)
    ensures
        is_tile_plan(r, h as int, w as int, cfg),
{
    if h <= cfg.tile && w <= cfg.tile {
        return TilePlan::Whole;
    }
    let step: usize = tile_step(cfg);
    TilePlan::Grid {
        rows: tile_spans(h, cfg.tile, step),
        cols: tile_spans(w, cfg.tile, step),
    }
}

/// The tiles of a grid lie inside the image and cover it: every span ends
/// within its side, and every pixel of the side lies in one.
pub proof fn law_spans_cover(dim: int, tile: int, step: int, x: int)
    requires
        1 <= step <= tile,
        0 <= x < dim,
    ensures
        exists|k: int|
            0 <= k < spans_of(dim, tile, step).len() && (#[trigger] spans_of(dim, tile, step)[k]).0
                <= x < spans_of(dim, tile, step)[k].0 + spans_of(dim, tile, step)[k].1,
        forall|k: int|
            0 <= k < spans_of(dim, tile, step).len() ==> {
                let s = #[trigger] spans_of(dim, tile, step)[k];
                0 <= s.0 && 1 <= s.1 && s.0 + s.1 <= dim
            },
{
    let off = offsets_of(dim, tile, step);
    let spans = spans_of(dim, tile, step);
    law_offsets_are_ordered(dim, tile, step);
    law_offsets_cover(dim, tile, step, x);
    let k = choose|k: int| 0 <= k < off.len() && #[trigger] off[k] <= x < off[k] + tile;
    assert(spans[k].0 <= x < spans[k].0 + spans[k].1);
    assert forall|j: int| 0 <= j < spans.len() implies {
        let s = #[trigger] spans[j];
        0 <= s.0 && 1 <= s.1 && s.0 + s.1 <= dim
    } by {
        assert(spans[j].0 == off[j]);
        if dim < tile {
            assert(off[j] == 0);
        }
    }
}

/// Neighbouring tiles share at least the configured overlap, as far as it is
/// shorter than a tile.
pub proof fn law_neighbours_overlap(dim: int, cfg: TileConfig, k: int)
    requires
        cfg.overlap < cfg.tile,
        cfg.tile <= dim,
        0 <= k < spans_of(dim, cfg.tile as int, cfg.step()).len() - 1,
    ensures
        ({
            let spans = spans_of(dim, cfg.tile as int, cfg.step());
            spans[k].0 + spans[k].1 - spans[k + 1].0 >= cfg.overlap
        }),
{
    law_offsets_are_ordered(dim, cfg.tile as int, cfg.step());
    let off = offsets_of(dim, cfg.tile as int, cfg.step());
    assert(off[k] < off[k + 1] <= off[k] + cfg.step());
    assert(off[k] + cfg.tile <= dim);
}

/// Why a stack cannot be fused. Shapes are channels, height, width.
#[derive(Debug, Clone, Copy, PartialEq, Eq)]
pub enum InferError {
    /// There is no frame.
    EmptyStack,
    /// A frame has another shape than the first.
    ShapeMismatch { index: usize, expected: (usize, usize, usize), got: (usize, usize, usize) },
}

/// Whether frame `i` is the first with another shape than frame 0.
pub open spec fn is_first_mismatch(shapes: Seq<(usize, usize, usize)>, i: int) -> bool {
    &&& 0 < i < shapes.len()
    &&& shapes[i] != shapes[0]
    &&& forall|k: int| 0 <= k < i ==> #[trigger] shapes[k] == shapes[0]
}

/// Whether all frames have the first one's shape.
pub open spec fn same_shapes(shapes: Seq<(usize, usize, usize)>) -> bool {
    forall|k: int| 0 <= k < shapes.len() ==> #[trigger] shapes[k] == shapes[0]
}

/// One step of fusing a stack. A composite is kept throughout: merging starts
/// from the first frame, fusing all frames at once from nothing.
#[derive(Debug, Clone, Copy, PartialEq, Eq, Structural)]
pub enum StackStep {
    /// Merge a frame into the composite.
    Merge { frame: usize },
    /// Fuse the whole image of all frames at once.
    FuseWhole,
    /// Fuse a row of tiles of all frames at once.
    FuseRow { row: usize },
    /// Report the composite as it is now, with this index.
    Report { index: usize },
}

/// The work of fusing a stack.
#[derive(Debug, PartialEq, Eq)]
pub struct FusePlan {
    pub strategy: FusionStrategy,
    pub h: usize,
    pub w: usize,
    /// How each network call sees the image.
    pub tiles: TilePlan,
    /// Number of frames merged into the first one, one after the other; zero
    /// where the whole stack is fused at once.
    pub merges: usize,
    /// Number of progress reports, indexed from 0.
    pub reports: usize,
    /// What is done, in order.
    pub steps: Vec<StackStep>,
}

/// The steps of merging `n` frames: the first one is reported as it is, and
/// each one after it is merged in and then reported.
pub open spec fn merge_steps(n: int) -> Seq<StackStep>
    decreases n,
{
    if n <= 0 {
        Seq::empty()
    } else if n == 1 {
        seq![StackStep::Report { index: 0 }]
    } else {
        merge_steps(n - 1) + seq![
            StackStep::Merge { frame: (n - 1) as usize },
            StackStep::Report { index: (n - 1) as usize },
        ]
    }
}

/// The steps of fusing `rows` rows of tiles: each is fused and then reported.
pub open spec fn row_steps(rows: int) -> Seq<StackStep>
    decreases rows,
{
    if rows <= 0 {
        Seq::empty()
    } else {
        row_steps(rows - 1) + seq![
            StackStep::FuseRow { row: (rows - 1) as usize },
            StackStep::Report { index: (rows - 1) as usize },
        ]
    }
}

/// The steps of fusing a stack.
pub open spec fn stack_steps(strategy: FusionStrategy, n_frames: int, tiles: TilePlan) -> Seq<
    StackStep,
> {
    match strategy {
        FusionStrategy::Pairwise => merge_steps(n_frames),
        FusionStrategy::Batch => match tiles {
            TilePlan::Whole => seq![StackStep::FuseWhole, StackStep::Report { index: 0 }],
            TilePlan::Grid { rows, cols } => row_steps(rows@.len() as int),
        },
    }
}

/// The composite after some steps. `work` says what a step other than a report
/// makes of a composite.
pub open spec fn composite_after<C>(
    start: C,
    work: spec_fn(C, StackStep) -> C,
    steps: Seq<StackStep>,
) -> C
    decreases steps.len(),
{
    if steps.len() == 0 {
        start
    } else {
        let before = composite_after(start, work, steps.drop_last());
        match steps.last() {
            StackStep::Report { index } => before,
            step => work(before, step),
        }
    }
}

/// What is reported by some steps, in order: each report's index, and the
/// composite that it shows.
pub open spec fn shown_by<C>(
    start: C,
    work: spec_fn(C, StackStep) -> C,
    steps: Seq<StackStep>,
) -> Seq<(int, C)>
    decreases steps.len(),
{
    if steps.len() == 0 {
        Seq::empty()
    } else {
        let before = shown_by(start, work, steps.drop_last());
        match steps.last() {
            StackStep::Report { index } => before.push(
                (index as int, composite_after(start, work, steps.drop_last())),
            ),
            _ => before,
        }
    }
}

/// The first frame with frames 1 to `k` merged in, one after the other.
pub open spec fn merged_up_to<C>(start: C, work: spec_fn(C, StackStep) -> C, k: int) -> C
    decreases k,
{
    if k <= 0 {
        start
    } else {
        work(merged_up_to(start, work, k - 1), StackStep::Merge { frame: k as usize })
    }
}

proof fn lemma_merge_steps<C>(start: C, work: spec_fn(C, StackStep) -> C, n: int)
    requires
        1 <= n,
    ensures
        composite_after(start, work, merge_steps(n)) == merged_up_to(start, work, n - 1),
        shown_by(start, work, merge_steps(n)) == Seq::new(
            n as nat,
            |k: int| (k as usize as int, merged_up_to(start, work, k)),
        ),
    decreases n,
{
    reveal_with_fuel(composite_after, 3);
    reveal_with_fuel(shown_by, 3);
    let steps = merge_steps(n);
    let wanted = Seq::new(
        n as nat,
        |k: int| (k as usize as int, merged_up_to(start, work, k)),
    );
    if n == 1 {
        assert(steps.drop_last() =~= Seq::<StackStep>::empty());
        assert(shown_by(start, work, steps) =~= wanted);
    } else {
        lemma_merge_steps(start, work, n - 1);
        assert(steps.drop_last().drop_last() =~= merge_steps(n - 1));
        assert(shown_by(start, work, steps) =~= wanted);
    }
}

/// Merging frame by frame reports once per frame: report `k` has index `k` and
/// shows the first frame with frames 1 to `k` merged in. So the first report
/// shows the first frame itself, the last shows the result, and a single frame
/// is the result with nothing merged.
pub proof fn law_merging_reports_each_frame<C>(
    start: C,
    work: spec_fn(C, StackStep) -> C,
    n: int,
    tiles: TilePlan,
)
    requires
        1 <= n <= usize::MAX,
    ensures
        ({
            let steps = stack_steps(FusionStrategy::Pairwise, n, tiles);
            let shown = shown_by(start, work, steps);
            let result = composite_after(start, work, steps);
            &&& shown == Seq::new(n as nat, |k: int| (k, merged_up_to(start, work, k)))
            &&& shown[0] == (0int, start)
            &&& shown.last() == (n - 1, result)
            &&& n == 1 ==> steps == seq![StackStep::Report { index: 0 }] && result == start
            &&& steps.len() == 2 * n - 1
            &&& forall|i: int|
                0 <= i < steps.len() ==> match #[trigger] steps[i] {
                    StackStep::Merge { frame } => 1 <= frame < n,
                    StackStep::Report { index } => index < n,
                    _ => false,
                }
        }),
{
    lemma_merge_steps(start, work, n);
    lemma_merge_steps_in_range(n);
    assert(shown_by(start, work, merge_steps(n)) =~= Seq::new(
        n as nat,
        |k: int| (k, merged_up_to(start, work, k)),
    ));
}

proof fn lemma_merge_steps_in_range(n: int)
    requires
        1 <= n <= usize::MAX,
    ensures
        forall|i: int|
            0 <= i < merge_steps(n).len() ==> match #[trigger] merge_steps(n)[i] {
                StackStep::Merge { frame } => 1 <= frame < n,
                StackStep::Report { index } => index < n,
                _ => false,
            },
        merge_steps(n).len() == 2 * n - 1,
    decreases n,
{
    if n > 1 {
        lemma_merge_steps_in_range(n - 1);
        let before = merge_steps(n - 1);
        assert forall|i: int| 0 <= i < merge_steps(n).len() implies match #[trigger] merge_steps(
            n,
        )[i] {
            StackStep::Merge { frame } => 1 <= frame < n,
            StackStep::Report { index } => index < n,
            _ => false,
        } by {
            if i < before.len() {
                assert(merge_steps(n)[i] == before[i]);
            }
        }
    }
}

/// What has been fused of an image after its first `k` rows of tiles.
pub open spec fn rows_up_to<C>(start: C, work: spec_fn(C, StackStep) -> C, k: int) -> C
    decreases k,
{
    if k <= 0 {
        start
    } else {
        work(rows_up_to(start, work, k - 1), StackStep::FuseRow { row: (k - 1) as usize })
    }
}

proof fn lemma_row_steps<C>(start: C, work: spec_fn(C, StackStep) -> C, rows: int)
    requires
        0 <= rows <= usize::MAX,
    ensures
        shown_by(start, work, row_steps(rows)) == Seq::new(
            rows as nat,
            |k: int| (k, rows_up_to(start, work, k + 1)),
        ),
        composite_after(start, work, row_steps(rows)) == rows_up_to(start, work, rows),
    decreases rows,
{
    reveal_with_fuel(composite_after, 3);
    reveal_with_fuel(shown_by, 3);
    let steps = row_steps(rows);
    if rows > 0 {
        lemma_row_steps(start, work, rows - 1);
        assert(steps.drop_last().drop_last() =~= row_steps(rows - 1));
    }
    assert(shown_by(start, work, steps) =~= Seq::new(
        rows as nat,
        |k: int| (k, rows_up_to(start, work, k + 1)),
    ));
}

/// Fusing all frames at once reports once per row of tiles, from 0 on: report
/// `k` shows what has been fused once row `k` is done. An image in one piece
/// is reported once, at its end.
pub proof fn law_batch_reports_each_row<C>(
    start: C,
    work: spec_fn(C, StackStep) -> C,
    n_frames: int,
    tiles: TilePlan,
)
    ensures
        ({
            let steps = stack_steps(FusionStrategy::Batch, n_frames, tiles);
            let shown = shown_by(start, work, steps);
            let result = composite_after(start, work, steps);
            match tiles {
                TilePlan::Whole => {
                    &&& result == work(start, StackStep::FuseWhole)
                    &&& shown == seq![(0int, result)]
                },
                TilePlan::Grid { rows, cols } => {
                    &&& result == rows_up_to(start, work, rows@.len() as int)
                    &&& shown == Seq::new(
                        rows@.len(),
                        |k: int| (k, rows_up_to(start, work, k + 1)),
                    )
                },
            }
        }),
{
    match tiles {
        TilePlan::Whole => {
            let whole = seq![StackStep::FuseWhole, StackStep::Report { index: 0 }];
            reveal_with_fuel(composite_after, 3);
            reveal_with_fuel(shown_by, 3);
            assert(whole.drop_last() =~= seq![StackStep::FuseWhole]);
            assert(whole.drop_last().drop_last() =~= Seq::<StackStep>::empty());
            assert(shown_by(start, work, whole) =~= seq![
                (0int, work(start, StackStep::FuseWhole)),
            ]);
        },
        TilePlan::Grid { rows, cols } => {
            lemma_row_steps(start, work, rows.len() as int);
        },
    }
}

fn plan_merges(n: usize) -> (r: Vec<StackStep>)
    requires
        n >= 1,
    ensures
        r@ == merge_steps(n as int),
{
    let mut steps: Vec<StackStep> = Vec::new();
    steps.push(StackStep::Report { index: 0 });
    let mut k: usize = 1;
    assert(steps@ =~= merge_steps(1));
    while k < n
        invariant
            1 <= k <= n,
            steps@ == merge_steps(k as int),
        decreases n - k,
    {
        steps.push(StackStep::Merge { frame: k });
        steps.push(StackStep::Report { index: k });
        k = k + 1;
        assert(steps@ =~= merge_steps(k as int));
    }
    steps
}

fn plan_rows(rows: usize) -> (r: Vec<StackStep>)
    ensures
        r@ == row_steps(rows as int),
{
    let mut steps: Vec<StackStep> = Vec::new();
    let mut k: usize = 0;
    assert(steps@ =~= row_steps(0));
    while k < rows
        invariant
            k <= rows,
            steps@ == row_steps(k as int),
        decreases rows - k,
    {
        steps.push(StackStep::FuseRow { row: k });
        steps.push(StackStep::Report { index: k });
        k = k + 1;
        assert(steps@ =~= row_steps(k as int));
    }
    steps
}

/// Number of progress reports: one per frame where frames are merged one by
/// one, one per row of tiles where the stack is fused at once.
pub open spec fn report_count(strategy: FusionStrategy, n_frames: int, tiles: TilePlan) -> int {
    match strategy {
        FusionStrategy::Pairwise => n_frames,
        FusionStrategy::Batch => match tiles {
            TilePlan::Whole => 1,
            TilePlan::Grid { rows, cols } => rows@.len() as int,
        },
    }
}

/// Plans the fusion of a stack: refuses an empty stack and the first frame of
/// another shape, and lays the image out in tiles.
pub fn fuse_stack(
    strategy: FusionStrategy,
    shapes: &Vec<(usize, usize, usize)>,
    cfg: TileConfig,
) -> (r: Result<FusePlan, InferError>)
    ensures
        match r {
            Ok(plan) => {
                &&& shapes@.len() > 0
                &&& same_shapes(shapes@)
                &&& plan.strategy == strategy
                &&& plan.h == shapes@[0].1 && plan.w == shapes@[0].2
                &&& is_tile_plan(plan.tiles, plan.h as int, plan.w as int, cfg)
                &&& plan.merges == (match strategy {
                    FusionStrategy::Pairwise => shapes@.len() - 1,
                    FusionStrategy::Batch => 0,
                })
                &&& plan.reports == report_count(strategy, shapes@.len() as int, plan.tiles)
                &&& plan.steps@ == stack_steps(strategy, shapes@.len() as int, plan.tiles)
            },
            Err(InferError::EmptyStack) => shapes@.len() == 0,
            Err(InferError::ShapeMismatch { index, expected, got }) => {
                &&& is_first_mismatch(shapes@, index as int)
                &&& expected == shapes@[0]
                &&& got == shapes@[index as int]
            },
        },
{
    if shapes.len() == 0 {
        return Err(InferError::EmptyStack);
    }
    let first = shapes[0];
    let mut i: usize = 1;
    while i < shapes.len()
        invariant
            1 <= i <= shapes@.len(),
            first == shapes@[0],
            forall|k: int| 0 <= k < i ==> #[trigger] shapes@[k] == shapes@[0],
        decreases shapes@.len() - i,
    {
        let got = shapes[i];
        if got.0 != first.0 || got.1 != first.1 || got.2 != first.2 {
            return Err(InferError::ShapeMismatch { index: i, expected: first, got });
        }
        i = i + 1;
    }
    let tiles = tile_plan(first.1, first.2, cfg);
    let merges: usize = match strategy {
        FusionStrategy::Pairwise => shapes.len() - 1,
        FusionStrategy::Batch => 0,
    };
    let reports: usize = match strategy {
        FusionStrategy::Pairwise => shapes.len(),
        FusionStrategy::Batch => match &tiles {
            TilePlan::Whole => 1,
            TilePlan::Grid { rows, cols } => rows.len(),
        },
    };
    let steps = match strategy {
        FusionStrategy::Pairwise => plan_merges(shapes.len()),
        FusionStrategy::Batch => match &tiles {
            TilePlan::Whole => {
                let mut steps: Vec<StackStep> = Vec::new();
                steps.push(StackStep::FuseWhole);
                steps.push(StackStep::Report { index: 0 });
                assert(steps@ =~= seq![StackStep::FuseWhole, StackStep::Report { index: 0 }]);
                steps
            },
            TilePlan::Grid { rows, cols } => plan_rows(rows.len()),
        },
    };
    Ok(FusePlan { strategy, h: first.1, w: first.2, tiles, merges, reports, steps })
}

/// Merging takes the frames in order, each once: the steps report the first
/// frame, and then merge in frame `k` and report it with index `k`, for every
/// other frame from 1 on.
pub proof fn law_frames_are_merged_in_order(n: int, tiles: TilePlan, k: int)
    requires
        1 <= k < n <= usize::MAX,
    ensures
        ({
            let steps = stack_steps(FusionStrategy::Pairwise, n, tiles);
            &&& steps.len() == 2 * n - 1
            &&& steps[0] == (StackStep::Report { index: 0 })
            &&& steps[2 * k - 1] == (StackStep::Merge { frame: k as usize })
            &&& steps[2 * k] == (StackStep::Report { index: k as usize })
        }),
    decreases n,
{
    let steps = merge_steps(n);
    let before = merge_steps(n - 1);
    lemma_merge_steps_in_range(n);
    lemma_merge_steps_in_range(n - 1);
    if k < n - 1 {
        law_frames_are_merged_in_order(n - 1, tiles, k);
        assert(steps[0] == before[0]);
        assert(steps[2 * k - 1] == before[2 * k - 1]);
        assert(steps[2 * k] == before[2 * k]);
    } else {
        if n > 2 {
            law_frames_are_merged_in_order(n - 1, tiles, 1);
        }
        assert(before[0] == (StackStep::Report { index: 0 }));
        assert(steps[0] == before[0]);
    }
}

proof fn lemma_row_step(rows: int, k: int)
    requires
        0 <= k < rows <= usize::MAX,
    ensures
        row_steps(rows).len() == 2 * rows,
        row_steps(rows)[2 * k] == (StackStep::FuseRow { row: k as usize }),
        row_steps(rows)[2 * k + 1] == (StackStep::Report { index: k as usize }),
    decreases rows,
{
    let before = row_steps(rows - 1);
    if k < rows - 1 {
        lemma_row_step(rows - 1, k);
        assert(row_steps(rows)[2 * k] == before[2 * k]);
        assert(row_steps(rows)[2 * k + 1] == before[2 * k + 1]);
    } else if rows > 1 {
        lemma_row_step(rows - 1, 0);
    } else {
        assert(before =~= Seq::<StackStep>::empty());
    }
}

/// Fusing at once takes the rows of tiles in order, each once: row `k` is fused
/// and then reported with index `k`. An image in one piece is fused once and
/// then reported.
pub proof fn law_rows_are_fused_in_order(n: int, tiles: TilePlan, k: int)
    ensures
        ({
            let steps = stack_steps(FusionStrategy::Batch, n, tiles);
            match tiles {
                TilePlan::Whole => {
                    &&& steps.len() == 2
                    &&& steps[0] == StackStep::FuseWhole
                    &&& steps[1] == (StackStep::Report { index: 0 })
                },
                TilePlan::Grid { rows, cols } => 0 <= k < rows@.len() ==> {
                    &&& steps.len() == 2 * rows@.len()
                    &&& steps[2 * k] == (StackStep::FuseRow { row: k as usize })
                    &&& steps[2 * k + 1] == (StackStep::Report { index: k as usize })
                },
            }
        }),
{
    if let TilePlan::Grid { rows, cols } = tiles {
        if 0 <= k < rows.len() {
            lemma_row_step(rows.len() as int, k);
        }
    }
}

/// A plan counts its own reports: as many as its steps show, whichever way the
/// stack is fused.
pub proof fn law_reports_are_counted<C>(
    start: C,
    work: spec_fn(C, StackStep) -> C,
    strategy: FusionStrategy,
    shapes: Vec<(usize, usize, usize)>,
    cfg: TileConfig,
    plan: FusePlan,
)
    requires
        call_ensures(fuse_stack, (strategy, &shapes, cfg), Ok(plan)),
    ensures
        plan.reports == shown_by(start, work, plan.steps@).len(),
        strategy == FusionStrategy::Pairwise ==> plan.merges + 1 == plan.reports && plan.reports
            == shapes@.len(),
        strategy == FusionStrategy::Batch ==> plan.merges == 0,
{
    let n = shapes.len() as int;
    match strategy {
        FusionStrategy::Pairwise => law_merging_reports_each_frame(start, work, n, plan.tiles),
        FusionStrategy::Batch => law_batch_reports_each_row(start, work, n, plan.tiles),
    }
}

/// A stack is fused where it has a frame and all its frames have one shape, and
/// only there; otherwise the answer names the first frame of another shape,
/// with both shapes.
pub proof fn law_first_odd_frame_is_named(
    strategy: FusionStrategy,
    shapes: Vec<(usize, usize, usize)>,
    cfg: TileConfig,
    r: Result<FusePlan, InferError>,
    k: int,
)
    requires
        call_ensures(fuse_stack, (strategy, &shapes, cfg), r),
        0 <= k < shapes@.len(),
    ensures
        r matches Ok(plan) ==> shapes@[k] == shapes@[0] && plan.h == shapes@[k].1 && plan.w
            == shapes@[k].2 && plan.strategy == strategy,
        r matches Err(e) ==> {
            &&& e matches InferError::ShapeMismatch { index, expected, got }
            &&& 0 < index < shapes@.len()
            &&& got == shapes@[index as int] && expected == shapes@[0] && got != expected
            &&& k < index ==> shapes@[k] == shapes@[0]
        },
{
}

/// Tiles stand exactly `step` apart, but for the last one, which is as near as
/// it takes to end with the side. A side that is no longer than a tile has one.
pub proof fn law_tiles_stand_a_step_apart(dim: int, tile: int, step: int, k: int)
    requires
        0 <= dim,
        0 <= tile,
        1 <= step,
    ensures
        ({
            let off = offsets_of(dim, tile, step);
            &&& dim <= tile ==> off == seq![0int]
            &&& tile <= dim && 0 <= k < off.len() - 2 ==> off[k + 1] - off[k] == step
            &&& tile <= dim && 0 <= k < off.len() - 1 ==> off[k] == k * step
            &&& tile <= dim ==> off.last() == dim - tile
        }),
{
    if tile <= dim {
        let last = dim - tile;
        let n = last / step;
        lemma_regular(last, step);
        let regular = regular_offsets(last, step);
        let off = offsets_of(dim, tile, step);
        assert(0 * step == 0) by (nonlinear_arith);
        assert(regular.last() == n * step);
        if last == 0 {
            assert(n == 0) by (nonlinear_arith)
                requires
                    n * step <= 0,
                    0 <= n,
                    1 <= step,
            ;
            assert(off =~= seq![0int]);
        }
        if 0 <= k < off.len() - 1 {
            assert(off[k] == k * step);
            if k < off.len() - 2 {
                assert(off[k + 1] == (k + 1) * step);
                assert((k + 1) * step == k * step + step) by (nonlinear_arith);
            }
        }
    }
}

/// Neighbouring tiles share exactly the configured overlap, but for the last
/// two of a side.
pub proof fn law_neighbours_share_the_overlap(dim: int, cfg: TileConfig, k: int)
    requires
        cfg.overlap < cfg.tile,
        cfg.tile <= dim,
        0 <= k < spans_of(dim, cfg.tile as int, cfg.step()).len() - 2,
    ensures
        ({
            let spans = spans_of(dim, cfg.tile as int, cfg.step());
            spans[k].0 + spans[k].1 - spans[k + 1].0 == cfg.overlap
        }),
{
    law_offsets_are_ordered(dim, cfg.tile as int, cfg.step());
    law_tiles_stand_a_step_apart(dim, cfg.tile as int, cfg.step(), k);
    let off = offsets_of(dim, cfg.tile as int, cfg.step());
    assert(off[k] + cfg.tile <= dim);
}

/// An image is handed over whole where neither side is longer than a tile.
/// Otherwise the rows of its grid cover its height and the columns its width,
/// and no tile reaches past the image or is larger than the configured side.
pub proof fn law_plan_covers_the_image(
    plan: TilePlan,
    h: int,
    w: int,
    cfg: TileConfig,
    y: int,
    x: int,
)
    requires
        is_tile_plan(plan, h, w, cfg),
        1 <= cfg.tile,
        0 <= y < h,
        0 <= x < w,
    ensures
        plan is Whole <==> h <= cfg.tile && w <= cfg.tile,
        plan matches TilePlan::Grid { rows, cols } ==> {
            &&& exists|i: int|
                0 <= i < rows@.len() && (#[trigger] rows@[i]).start <= y < rows@[i].start
                    + rows@[i].len
            &&& exists|j: int|
                0 <= j < cols@.len() && (#[trigger] cols@[j]).start <= x < cols@[j].start
                    + cols@[j].len
            &&& forall|i: int|
                0 <= i < rows@.len() ==> (#[trigger] rows@[i]).start + rows@[i].len <= h
                    && rows@[i].len <= cfg.tile
            &&& forall|j: int|
                0 <= j < cols@.len() ==> (#[trigger] cols@[j]).start + cols@[j].len <= w
                    && cols@[j].len <= cfg.tile
        },
{
    if let TilePlan::Grid { rows, cols } = plan {
        lemma_grid_side(rows@, h, cfg, y);
        lemma_grid_side(cols@, w, cfg, x);
    }
}

proof fn lemma_grid_side(side: Seq<Span>, dim: int, cfg: TileConfig, x: int)
    requires
        span_numbers(side) == spans_of(dim, cfg.tile as int, cfg.step()),
        1 <= cfg.tile,
        0 <= x < dim,
    ensures
        exists|k: int|
            0 <= k < side.len() && (#[trigger] side[k]).start <= x < side[k].start + side[k].len,
        forall|k: int|
            0 <= k < side.len() ==> (#[trigger] side[k]).start + side[k].len <= dim && side[k].len
                <= cfg.tile,
{
    let spans = spans_of(dim, cfg.tile as int, cfg.step());
    law_spans_cover(dim, cfg.tile as int, cfg.step(), x);
    let k = choose|k: int|
        0 <= k < spans.len() && (#[trigger] spans[k]).0 <= x < spans[k].0 + spans[k].1;
    assert(span_numbers(side)[k] == (side[k].start as int, side[k].len as int));
    assert(side[k].start <= x < side[k].start + side[k].len);
    assert forall|j: int| 0 <= j < side.len() implies (#[trigger] side[j]).start + side[j].len
        <= dim && side[j].len <= cfg.tile by {
        assert(span_numbers(side)[j] == (side[j].start as int, side[j].len as int));
        assert(spans[j].0 + spans[j].1 <= dim);
    }
}

/// The overlap that is derived for a network covers its receptive field and is
/// never below the smallest one; it is no larger than that takes.
pub proof fn law_model_overlap_covers_its_field(receptive_field: usize, r: TileConfig)
    requires
        call_ensures(TileConfig::for_model, (receptive_field,), r),
    ensures
        receptive_field <= r.overlap,
        96 <= r.overlap,
        r.overlap == receptive_field || r.overlap == 96,
        r.tile == 512,
{
}

/// The plan of merging a stack: every frame after the first is merged in once,
/// in frame order, and reported right after; a plan of fusing at once merges
/// none.
pub proof fn law_plan_merges_every_frame(
    strategy: FusionStrategy,
    shapes: Vec<(usize, usize, usize)>,
    cfg: TileConfig,
    plan: FusePlan,
    k: int,
)
    requires
        call_ensures(fuse_stack, (strategy, &shapes, cfg), Ok(plan)),
        1 <= k < shapes@.len(),
    ensures
        strategy == FusionStrategy::Pairwise ==> {
            &&& plan.steps@.len() == 2 * shapes@.len() - 1
            &&& plan.steps@[2 * k - 1] == (StackStep::Merge { frame: k as usize })
            &&& plan.steps@[2 * k] == (StackStep::Report { index: k as usize })
        },
        strategy == FusionStrategy::Batch && 0 <= k < plan.steps@.len() ==> !(plan.steps@[k]
            is Merge),
{
    let n = shapes.len() as int;
    match strategy {
        FusionStrategy::Pairwise => law_frames_are_merged_in_order(n, plan.tiles, k),
        FusionStrategy::Batch => {
            if let TilePlan::Grid { rows, cols } = plan.tiles {
                lemma_no_merge(rows.len() as int, k);
            }
        },
    }
}

proof fn lemma_no_merge(rows: int, i: int)
    ensures
        0 <= i < row_steps(rows).len() ==> !(row_steps(rows)[i] is Merge),
    decreases rows,
{
    if rows > 0 {
        lemma_no_merge(rows - 1, i);
        if 0 <= i < row_steps(rows - 1).len() {
            assert(row_steps(rows)[i] == row_steps(rows - 1)[i]);
        }
    }
}

} // verus!
