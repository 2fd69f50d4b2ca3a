//! The scenes that a run trains on.

use vstd::prelude::*;
use crate::data::dataset::{enumerate_pairs, flat_items, items_view, plane_counts};
use crate::data::scene::{AlignSequence, RealStackScene, RolloutSequence};
use crate::paths::{
    is_sorted_listing, law_listing_adds_nothing, law_listing_holds_all, sort_by_name, Named,
};
use crate::text::comes_before;

verus! {

impl Named for RolloutSequence {
    open spec fn name_text(self) -> Seq<char> {
        self.scene_dir@
    }

    fn name_before(&self, other: &Self) -> (r: bool) {
        comes_before(self.scene_dir.as_str(), other.scene_dir.as_str())
    }
}

impl Named for AlignSequence {
    open spec fn name_text(self) -> Seq<char> {
        self.scene_dir@
    }

    fn name_before(&self, other: &Self) -> (r: bool) {
        comes_before(self.scene_dir.as_str(), other.scene_dir.as_str())
    }
}

/// Why there is nothing to train on.
#[derive(Debug, Clone, Copy, PartialEq, Eq, Structural)]
pub enum NothingToTrain {
    /// The data directory holds no scene.
    NoScenes,
    /// The scenes hold no frame.
    NoPairs,
}

/// What a user reads where there is nothing to train on.
pub open spec fn nothing_message(e: NothingToTrain, root: Seq<char>) -> Seq<char> {
    match e {
        NothingToTrain::NoScenes => "no scenes (dirs with metadata.json) found under "@ + root,
        NothingToTrain::NoPairs => "no alignment scenes contain any frames to pair"@,
    }
}

impl NothingToTrain {
    /// The message shown to the user, for a data directory.
    pub fn message(self, root: &str) -> (r: String)
        ensures
            r@ == nothing_message(self, root@),
    {
        match self {
            NothingToTrain::NoScenes => {
                let mut s = "no scenes (dirs with metadata.json) found under ".to_owned();
                s.append(root);
                s
            },
            NothingToTrain::NoPairs => "no alignment scenes contain any frames to pair".to_owned(),
        }
    }
}

/// The scenes found in a data directory, sorted by directory; refused where
/// there is none.
pub fn discover_scenes<T: Named>(found: Vec<T>) -> (r: Result<Vec<T>, NothingToTrain>)
    ensures
        match r {
            Ok(scenes) => found@.len() > 0 && is_sorted_listing(found@, scenes@),
            Err(e) => found@.len() == 0 && e == NothingToTrain::NoScenes,
        },
{
    if found.len() == 0 {
        return Err(NothingToTrain::NoScenes);
    }
    Ok(sort_by_name(found))
}

/// The examples of pairwise alignment: every frame of every scene, against its
/// scene's first; refused where there is none.
pub fn pair_examples(scenes: &Vec<AlignSequence>) -> (r: Result<
    Vec<(usize, usize)>,
    NothingToTrain,
>)
    ensures
        match r {
            Ok(pairs) => pairs@.len() > 0 && items_view(pairs@) == flat_items(
                plane_counts(scenes@),
            ),
            Err(e) => flat_items(plane_counts(scenes@)).len() == 0 && e == NothingToTrain::NoPairs,
        },
{
    let pairs = enumerate_pairs(scenes);
    assert(items_view(pairs@).len() == pairs@.len());
    if pairs.len() == 0 {
        Err(NothingToTrain::NoPairs)
    } else {
        Ok(pairs)
    }
}

/// The scenes that hold a frame besides the first, in the order given.
pub open spec fn with_two_frames(scenes: Seq<RealStackScene>) -> Seq<RealStackScene> {
    scenes.filter(|s: RealStackScene| s.frames@.len() >= 2)
}

/// The unlabelled scenes that fine-tuning can use: it compares frames with the
/// first.
pub fn usable_real_scenes(scenes: Vec<RealStackScene>) -> (r: Vec<RealStackScene>)
    ensures
        r@ == with_two_frames(scenes@),
{
    let ghost all = scenes@;
    let mut kept: Vec<RealStackScene> = Vec::new();
    for scene in it: scenes
        invariant
            it.seq() == all,
            kept@ == with_two_frames(all.take(it.index() as int)),
    {
        proof {
            reveal(Seq::filter);
            assert(all.take(it.index() + 1).drop_last() == all.take(it.index() as int));
            assert(all.take(it.index() + 1).last() == scene);
        }
        if scene.len() >= 2 {
            kept.push(scene);
        }
    }
    assert(all.take(all.len() as int) == all);
    kept
}

/// Fine-tuning uses the scenes of at least two frames, and no others, in the
/// order given.
pub proof fn law_scenes_of_two_frames_are_used(
    scenes: Seq<RealStackScene>,
    more: Seq<RealStackScene>,
    scene: RealStackScene,
)
    ensures
        with_two_frames(scenes).contains(scene) <==> scenes.contains(scene) && scene.frames@.len()
            >= 2,
        with_two_frames(scenes + more) == with_two_frames(scenes) + with_two_frames(more),
        (forall|i: int| 0 <= i < scenes.len() ==> (#[trigger] scenes[i]).frames@.len() >= 2)
            ==> with_two_frames(scenes) == scenes,
    decreases scenes.len(),
{
    reveal(Seq::filter);
    let usable = |s: RealStackScene| s.frames@.len() >= 2;
    Seq::filter_distributes_over_add(scenes, more, usable);
    if scenes.len() > 0 {
        let init = scenes.drop_last();
        let before = with_two_frames(init);
        let after = with_two_frames(scenes);
        law_scenes_of_two_frames_are_used(init, more, scene);
        if forall|i: int| 0 <= i < scenes.len() ==> (#[trigger] scenes[i]).frames@.len() >= 2 {
            assert forall|i: int| 0 <= i < init.len() implies (#[trigger] init[i]).frames@.len()
                >= 2 by {
                assert(init[i] == scenes[i]);
            }
            assert(scenes.last() == scenes[scenes.len() - 1]);
            assert(before.push(scenes.last()) =~= scenes);
        }
        if before.contains(scene) {
            let at = choose|at: int| 0 <= at < before.len() && before[at] == scene;
            assert(after[at] == scene);
            let j = choose|j: int| 0 <= j < init.len() && init[j] == scene;
            assert(scenes[j] == scene);
        }
        if usable(scenes.last()) {
            assert(after == before.push(scenes.last()));
            assert(after[before.len() as int] == scenes.last());
            assert(scenes[scenes.len() - 1] == scenes.last());
        }
        if after.contains(scene) && !before.contains(scene) {
            let at = choose|at: int| 0 <= at < after.len() && after[at] == scene;
            if at < before.len() {
                assert(before[at] == scene);
            }
        }
        if scenes.contains(scene) && scene.frames@.len() >= 2 {
            let j = choose|j: int| 0 <= j < scenes.len() && scenes[j] == scene;
            if j < init.len() {
                assert(init[j] == scene);
            }
        }
    }
}

/// Scenes are refused only where there is none, and sorting keeps each of
/// them.
pub proof fn law_every_scene_is_kept<T: Named>(
    found: Vec<T>,
    r: Result<Vec<T>, NothingToTrain>,
    scene: T,
)
    requires
        call_ensures(discover_scenes::<T>, (found,), r),
    ensures
        r is Ok <==> found@.len() > 0,
        r matches Ok(scenes) ==> scenes@.len() == found@.len() && (scenes@.contains(scene)
            <==> found@.contains(scene)),
{
    if let Ok(scenes) = r {
        law_listing_adds_nothing(found@, scenes@, 0);
        if found@.contains(scene) {
            let i = choose|i: int| 0 <= i < found@.len() && found@[i] == scene;
            law_listing_holds_all(found@, scenes@, i);
        }
        if scenes@.contains(scene) {
            let k = choose|k: int| 0 <= k < scenes@.len() && scenes@[k] == scene;
            law_listing_adds_nothing(found@, scenes@, k);
        }
    }
}

} // verus!
