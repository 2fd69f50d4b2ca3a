//! Datasets: collections of scenes, and the flat list of their samples.

use vstd::prelude::*;
use crate::data::crop::CropParams;
use crate::data::scene::{AlignSequence, RolloutSequence};

verus! {

/// The first `n` items of a scene: `(scene, 0)`, `(scene, 1)`, and so on.
pub open spec fn scene_items(scene: int, n: int) -> Seq<(int, int)> {
    Seq::new(n as nat, |k: int| (scene, k))
}

/// All items of scenes with these numbers of items, scene by scene.
pub open spec fn flat_items(counts: Seq<usize>) -> Seq<(int, int)>
    decreases counts.len(),
{
    if counts.len() == 0 {
        Seq::empty()
    } else {
        flat_items(counts.drop_last()) + scene_items(counts.len() - 1, counts.last() as int)
    }
}

/// Sum of numbers.
pub open spec fn total(counts: Seq<usize>) -> int
    decreases counts.len(),
{
    if counts.len() == 0 {
        0
    } else {
        total(counts.drop_last()) + counts.last()
    }
}

/// An item as numbers.
pub open spec fn item(x: (usize, usize)) -> (int, int) {
    (x.0 as int, x.1 as int)
}

/// Items as numbers.
pub open spec fn items_view(s: Seq<(usize, usize)>) -> Seq<(int, int)> {
    Seq::new(s.len(), |k: int| item(s[k]))
}

/// The flat list of all items of scenes with these numbers of items.
pub fn enumerate_items(counts: &Vec<usize>) -> (r: Vec<(usize, usize)>)
    ensures
        items_view(r@) == flat_items(counts@),
{
    let mut out: Vec<(usize, usize)> = Vec::new();
    let mut s: usize = 0;
    assert(items_view(out@) =~= flat_items(counts@.take(0)));
    while s < counts.len()
        invariant
            s <= counts@.len(),
            items_view(out@) == flat_items(counts@.take(s as int)),
        decreases counts@.len() - s,
    {
        let n: usize = counts[s];
        let ghost before = items_view(out@);
        let mut k: usize = 0;
        assert(before + scene_items(s as int, 0) =~= before);
        while k < n
            invariant
                k <= n,
                items_view(out@) == before + scene_items(s as int, k as int),
            decreases n - k,
        {
            let ghost prior = out@;
            out.push((s, k));
            assert(items_view(out@) =~= items_view(prior).push((s as int, k as int)));
            assert(scene_items(s as int, k + 1) =~= scene_items(s as int, k as int).push(
                (s as int, k as int),
            ));
            assert(items_view(out@) =~= before + scene_items(s as int, k + 1));
            k = k + 1;
        }
        proof {
            assert(counts@.take(s + 1).drop_last() =~= counts@.take(s as int));
        }
        s = s + 1;
    }
    assert(counts@.take(counts@.len() as int) =~= counts@);
    out
}

/// The list has as many items as the scenes have together.
pub proof fn law_item_count(counts: Seq<usize>)
    ensures
        flat_items(counts).len() == total(counts),
        total(counts) >= 0,
    decreases counts.len(),
{
    if counts.len() > 0 {
        law_item_count(counts.drop_last());
    }
}

/// Every item of every scene is listed.
pub proof fn law_every_item_listed(counts: Seq<usize>, scene: int, k: int)
    requires
        0 <= scene < counts.len(),
        0 <= k < counts[scene],
    ensures
        flat_items(counts).contains((scene, k)),
    decreases counts.len(),
{
    let init = flat_items(counts.drop_last());
    if scene < counts.len() - 1 {
        law_every_item_listed(counts.drop_last(), scene, k);
        let i = choose|i: int| 0 <= i < init.len() && init[i] == (scene, k);
        assert(flat_items(counts)[i] == (scene, k));
    } else {
        assert(flat_items(counts)[init.len() + k] == (scene, k));
    }
}

/// No item is listed twice, and items come scene by scene in order.
pub proof fn law_items_in_order(counts: Seq<usize>, i: int, j: int)
    requires
        0 <= i < j < flat_items(counts).len(),
    ensures
        ({
            let a = flat_items(counts)[i];
            let b = flat_items(counts)[j];
            &&& a.0 < b.0 || (a.0 == b.0 && a.1 < b.1)
            &&& 0 <= a.0 && b.0 < counts.len()
            &&& 0 <= b.1 < counts[b.0]
        }),
    decreases counts.len(),
{
    if counts.len() > 0 {
        let init = counts.drop_last();
        if j < flat_items(init).len() {
            law_items_in_order(init, i, j);
        } else if i < flat_items(init).len() {
            lemma_item_in_range(init, i);
        }
    }
}

proof fn lemma_item_in_range(counts: Seq<usize>, i: int)
    requires
        0 <= i < flat_items(counts).len(),
    ensures
        0 <= flat_items(counts)[i].0 < counts.len(),
        0 <= flat_items(counts)[i].1 < counts[flat_items(counts)[i].0],
    decreases counts.len(),
{
    if counts.len() > 0 {
        let init = counts.drop_last();
        if i < flat_items(init).len() {
            lemma_item_in_range(init, i);
        }
    }
}

/// A dataset of pairwise-merge samples: one per step of every scene.
#[derive(Debug)]
pub struct FocusStackDataset {
    pub sequences: Vec<RolloutSequence>,
    pub items: Vec<(usize, usize)>,
    pub crop: Option<CropParams>,
}

/// Numbers of steps of scenes.
pub open spec fn step_counts(sequences: Seq<RolloutSequence>) -> Seq<usize> {
    Seq::new(sequences.len(), |i: int| sequences[i].n_steps)
}

impl FocusStackDataset {
    /// The scenes.
    pub open spec fn scenes(self) -> Seq<RolloutSequence> {
        self.sequences@
    }

    /// The list of samples is the list of all steps of all scenes.
    pub open spec fn wf(self) -> bool {
        items_view(self.items@) == flat_items(step_counts(self.sequences@))
    }

    /// The dataset of these scenes.
    pub fn from_root(sequences: Vec<RolloutSequence>, crop: Option<CropParams>) -> (r: Self)
        ensures
            r.wf(),
            r.scenes() == sequences@,
            r.crop == crop,
    {
        let mut counts: Vec<usize> = Vec::new();
        let mut i: usize = 0;
        while i < sequences.len()
            invariant
                i <= sequences@.len(),
                counts@.len() == i,
                forall|k: int| 0 <= k < i ==> #[trigger] counts@[k] == sequences@[k].n_steps,
            decreases sequences@.len() - i,
        {
            counts.push(sequences[i].n_steps);
            i = i + 1;
        }
        assert(counts@ =~= step_counts(sequences@));
        let items = enumerate_items(&counts);
        FocusStackDataset { sequences, items, crop }
    }

    /// Number of samples.
    pub fn len(&self) -> (r: usize)
        requires
            self.wf(),
        ensures
            r == flat_items(step_counts(self.scenes())).len(),
    {
        assert(items_view(self.items@).len() == self.items@.len());
        self.items.len()
    }

    /// Whether there is no sample.
    pub fn is_empty(&self) -> (r: bool)
        requires
            self.wf(),
        ensures
            r == (flat_items(step_counts(self.scenes())).len() == 0),
    {
        self.len() == 0
    }

    /// The scene and step of the sample at `index`.
    pub fn get(&self, index: usize) -> (r: (&RolloutSequence, usize))
        requires
            self.wf(),
            index < flat_items(step_counts(self.scenes())).len(),
        ensures
            ({
                let x = flat_items(step_counts(self.scenes()))[index as int];
                *r.0 == self.scenes()[x.0] && r.1 == x.1 && r.1 < r.0.n_steps
            }),
    {
        proof {
            lemma_item_in_range(step_counts(self.sequences@), index as int);
            assert(items_view(self.items@)[index as int] == item(self.items@[index as int]));
        }
        let (scene, step) = self.items[index];
        (&self.sequences[scene], step)
    }
}

/// A dataset of whole-stack fusion samples: one per scene.
#[derive(Debug)]
pub struct BatchStackDataset {
    pub sequences: Vec<RolloutSequence>,
    pub crop: Option<CropParams>,
}

impl BatchStackDataset {
    /// The scenes.
    pub open spec fn scenes(self) -> Seq<RolloutSequence> {
        self.sequences@
    }

    /// The dataset of these scenes.
    pub fn from_root(sequences: Vec<RolloutSequence>, crop: Option<CropParams>) -> (r: Self)
        ensures
            r.scenes() == sequences@,
            r.crop == crop,
    {
        BatchStackDataset { sequences, crop }
    }

    /// Number of samples.
    pub fn len(&self) -> (r: usize)
        ensures
            r == self.scenes().len(),
    {
        self.sequences.len()
    }

    /// Whether there is no sample.
    pub fn is_empty(&self) -> (r: bool)
        ensures
            r == (self.scenes().len() == 0),
    {
        self.sequences.len() == 0
    }

    /// The scene of the sample at `index`.
    pub fn get(&self, index: usize) -> (r: &RolloutSequence)
        requires
            index < self.scenes().len(),
        ensures
            *r == self.scenes()[index as int],
    {
        &self.sequences[index]
    }
}

/// A dataset of alignment samples: one per scene.
#[derive(Debug)]
pub struct AlignStackDataset {
    pub sequences: Vec<AlignSequence>,
    pub crop: Option<CropParams>,
}

impl AlignStackDataset {
    /// The scenes.
    pub open spec fn scenes(self) -> Seq<AlignSequence> {
        self.sequences@
    }

    /// The dataset of these scenes.
    pub fn from_root(sequences: Vec<AlignSequence>, crop: Option<CropParams>) -> (r: Self)
        ensures
            r.scenes() == sequences@,
            r.crop == crop,
    {
        AlignStackDataset { sequences, crop }
    }

    /// Number of samples.
    pub fn len(&self) -> (r: usize)
        ensures
            r == self.scenes().len(),
    {
        self.sequences.len()
    }

    /// Whether there is no sample.
    pub fn is_empty(&self) -> (r: bool)
        ensures
            r == (self.scenes().len() == 0),
    {
        self.sequences.len() == 0
    }

    /// The scene of the sample at `index`.
    pub fn get(&self, index: usize) -> (r: &AlignSequence)
        requires
            index < self.scenes().len(),
        ensures
            *r == self.scenes()[index as int],
    {
        &self.sequences[index]
    }
}

/// Numbers of planes of alignment scenes.
pub open spec fn plane_counts(sequences: Seq<AlignSequence>) -> Seq<usize> {
    Seq::new(sequences.len(), |i: int| sequences[i].meta.n_planes)
}

/// All pairs of a scene and one of its frames, scene by scene.
pub fn enumerate_pairs(sequences: &Vec<AlignSequence>) -> (r: Vec<(usize, usize)>)
    ensures
        items_view(r@) == flat_items(plane_counts(sequences@)),
{
    let mut counts: Vec<usize> = Vec::new();
    let mut i: usize = 0;
    while i < sequences.len()
        invariant
            i <= sequences@.len(),
            counts@.len() == i,
            forall|k: int| 0 <= k < i ==> #[trigger] counts@[k] == sequences@[k].meta.n_planes,
        decreases sequences@.len() - i,
    {
        counts.push(sequences[i].meta.n_planes);
        i = i + 1;
    }
    assert(counts@ =~= plane_counts(sequences@));
    enumerate_items(&counts)
}

/// Every frame of every alignment scene is paired, and nothing else: a pair
/// names a scene, and one of that scene's planes.
pub proof fn law_every_frame_is_paired(
    sequences: Vec<AlignSequence>,
    r: Vec<(usize, usize)>,
    scene: usize,
    frame: usize,
)
    requires
        call_ensures(enumerate_pairs, (&sequences,), r),
    ensures
        r@.contains((scene, frame)) <==> scene < sequences@.len() && frame
            < sequences@[scene as int].meta.n_planes,
{
    let counts = plane_counts(sequences@);
    lemma_listed_in_range(counts, r@, scene, frame);
}

proof fn lemma_listed_in_range(
    counts: Seq<usize>,
    r: Seq<(usize, usize)>,
    scene: usize,
    k: usize,
)
    requires
        items_view(r) == flat_items(counts),
    ensures
        r.contains((scene, k)) <==> scene < counts.len() && k < counts[scene as int],
{
    let items = flat_items(counts);
    assert(items_view(r).len() == r.len());
    if r.contains((scene, k)) {
        let i = choose|i: int| 0 <= i < r.len() && r[i] == (scene, k);
        assert(items_view(r)[i] == item(r[i]));
        lemma_item_in_range(counts, i);
    }
    if scene < counts.len() && k < counts[scene as int] {
        law_every_item_listed(counts, scene as int, k as int);
        let i = choose|i: int| 0 <= i < items.len() && items[i] == (scene as int, k as int);
        assert(items_view(r)[i] == item(r[i]));
        assert(r[i] == (scene, k));
    }
}

/// A dataset of merges has a sample for every step of every scene, and no
/// other, in the order of scenes and steps.
pub proof fn law_every_step_is_a_sample(data: FocusStackDataset, scene: usize, step: usize)
    requires
        data.wf(),
    ensures
        data.items@.contains((scene, step)) <==> scene < data.sequences@.len() && step
            < data.sequences@[scene as int].n_steps,
{
    lemma_listed_in_range(step_counts(data.sequences@), data.items@, scene, step);
}

/// The sample at an index is a step of one of the scenes, and the samples at
/// different indices are different: a later one belongs to a later scene, or
/// to a later step of the same one.
pub proof fn law_samples_go_scene_by_scene(data: FocusStackDataset, i: int, j: int)
    requires
        data.wf(),
        0 <= i < j < data.items@.len(),
    ensures
        data.items@[i].0 < data.items@[j].0 || (data.items@[i].0 == data.items@[j].0
            && data.items@[i].1 < data.items@[j].1),
{
    assert(items_view(data.items@).len() == data.items@.len());
    assert(items_view(data.items@)[i] == item(data.items@[i]));
    assert(items_view(data.items@)[j] == item(data.items@[j]));
    law_items_in_order(step_counts(data.sequences@), i, j);
}

/// The sample at an index is the scene and the step that the list of samples
/// holds there.
pub proof fn law_sample_is_its_item(
    data: FocusStackDataset,
    index: usize,
    r: (&RolloutSequence, usize),
)
    requires
        data.wf(),
        index < data.items@.len(),
        call_ensures(FocusStackDataset::get, (&data, index), r),
    ensures
        *r.0 == data.sequences@[data.items@[index as int].0 as int],
        r.1 == data.items@[index as int].1,
{
    assert(items_view(data.items@)[index as int] == item(data.items@[index as int]));
}

/// A dataset of whole scenes has one sample for each scene, in the order
/// given.
pub proof fn law_whole_scenes_are_samples(
    data: BatchStackDataset,
    other: AlignStackDataset,
    index: usize,
    n: usize,
    m: usize,
    r: &RolloutSequence,
    q: &AlignSequence,
)
    requires
        call_ensures(BatchStackDataset::len, (&data,), n),
        call_ensures(AlignStackDataset::len, (&other,), m),
        call_ensures(BatchStackDataset::get, (&data, index), r),
        call_ensures(AlignStackDataset::get, (&other, index), q),
    ensures
        n == data.sequences@.len(),
        m == other.sequences@.len(),
        *r == data.sequences@[index as int],
        *q == other.sequences@[index as int],
{
}

} // verus!
