//! Scene descriptors, and the images that each kind of sample is made of.

use vstd::prelude::*;
use crate::data::crop::{DataError, MetaField, MetadataFault};
use crate::paths::{
    all_portable, folded_extension, is_joined, is_sorted_listing, join, joins,
    law_portable_paths_read_alike, opt_text, plain_extensions, reads_all, reads_folded,
    sort_by_name, splits_alike, Named,
};
use crate::text::{comes_before, decimal, numeral, same};

verus! {

/// File name of a scene's descriptor.
pub const DESCRIPTOR: &'static str = "metadata.json";

/// Whether `path` is the descriptor of the scene in a directory: the
/// directory joined with [`DESCRIPTOR`].
pub open spec fn is_descriptor_path(scene_dir: Seq<char>, path: Seq<char>) -> bool {
    &&& joins(scene_dir, DESCRIPTOR@, path)
    &&& splits_alike(scene_dir) ==> is_joined(scene_dir, DESCRIPTOR@, path)
}

/// The path of the descriptor of the scene in a directory.
pub fn descriptor_path(scene_dir: &str) -> (r: String)
    ensures
        is_descriptor_path(scene_dir@, r@),
{
    proof {
        reveal_strlit("metadata.json");
        let name = DESCRIPTOR@;
        assert(name.len() == 13);
        assert forall|i: int| 0 <= i < name.len() implies name[i] != '/' && name[i] != '\\'
            && name[i] != ':' by {
            assert(name[0] == 'm' && name[1] == 'e' && name[2] == 't' && name[3] == 'a');
            assert(name[4] == 'd' && name[5] == 'a' && name[6] == 't' && name[7] == 'a');
            assert(name[8] == '.' && name[9] == 'j' && name[10] == 's' && name[11] == 'o');
            assert(name[12] == 'n');
        }
    }
    join(scene_dir, DESCRIPTOR)
}

/// Descriptor of a fusion scene. File names are relative to the scene's
/// directory; `focus_fractions` holds bit patterns of floats.
#[derive(Debug)]
pub struct SceneMeta {
    pub n_planes: usize,
    pub focus_fractions: Vec<u32>,
    pub stack: Vec<String>,
    pub masks: Vec<String>,
    pub allfocus: String,
    pub occlusion: String,
    pub merge_order: Vec<usize>,
}

/// Descriptor of an alignment scene. The matrices hold bit patterns of floats;
/// `cropped_dims` is the width and height of every image.
#[derive(Debug)]
pub struct AlignSceneMeta {
    pub n_planes: usize,
    pub stack: Vec<String>,
    pub alignment_gt: Vec<[[u32; 3]; 3]>,
    pub cropped_dims: [u32; 2],
}

/// The name of a descriptor's field.
pub open spec fn field_name(field: MetaField) -> Seq<char> {
    match field {
        MetaField::FocusFractions => "focus_fractions"@,
        MetaField::Stack => "stack"@,
        MetaField::Masks => "masks"@,
        MetaField::MergeOrder => "merge_order"@,
        MetaField::AlignmentGt => "alignment_gt"@,
    }
}

/// What a descriptor's fault reads like.
pub open spec fn fault_text(fault: MetadataFault) -> Seq<char> {
    match fault {
        MetadataFault::WrongLength { field, got, n_planes } => "`"@ + field_name(field)
            + "` has length "@ + numeral(got as nat) + ", expected n_planes="@ + numeral(
            n_planes as nat,
        ),
        MetadataFault::TooFewPlanes { min } => "n_planes must be >= "@ + numeral(min as nat),
        MetadataFault::FrameOutOfRange { frame_index, n_planes } => "frame_index "@ + numeral(
            frame_index as nat,
        ) + " out of range for n_planes="@ + numeral(n_planes as nat),
    }
}

impl MetadataFault {
    /// What the fault reads like.
    pub fn text(&self) -> (r: String)
        ensures
            r@ == fault_text(*self),
    {
        match self {
            MetadataFault::WrongLength { field, got, n_planes } => {
                let mut s = "`".to_owned();
                match field {
                    MetaField::FocusFractions => s.append("focus_fractions"),
                    MetaField::Stack => s.append("stack"),
                    MetaField::Masks => s.append("masks"),
                    MetaField::MergeOrder => s.append("merge_order"),
                    MetaField::AlignmentGt => s.append("alignment_gt"),
                }
                s.append("` has length ");
                s.append(decimal(*got as u128).as_str());
                s.append(", expected n_planes=");
                s.append(decimal(*n_planes as u128).as_str());
                s
            },
            MetadataFault::TooFewPlanes { min } => {
                let mut s = "n_planes must be >= ".to_owned();
                s.append(decimal(*min as u128).as_str());
                s
            },
            MetadataFault::FrameOutOfRange { frame_index, n_planes } => {
                let mut s = "frame_index ".to_owned();
                s.append(decimal(*frame_index as u128).as_str());
                s.append(" out of range for n_planes=");
                s.append(decimal(*n_planes as u128).as_str());
                s
            },
        }
    }
}

/// The first fault of a fusion scene's descriptor: the per-plane fields in
/// order, then the number of planes.
pub open spec fn scene_fault(m: SceneMeta) -> Option<MetadataFault> {
    let n = m.n_planes;
    if m.focus_fractions@.len() != n {
        Some(
            MetadataFault::WrongLength {
                field: MetaField::FocusFractions,
                got: m.focus_fractions@.len() as usize,
                n_planes: n,
            },
        )
    } else if m.stack@.len() != n {
        Some(
            MetadataFault::WrongLength {
                field: MetaField::Stack,
                got: m.stack@.len() as usize,
                n_planes: n,
            },
        )
    } else if m.masks@.len() != n {
        Some(
            MetadataFault::WrongLength {
                field: MetaField::Masks,
                got: m.masks@.len() as usize,
                n_planes: n,
            },
        )
    } else if m.merge_order@.len() != n {
        Some(
            MetadataFault::WrongLength {
                field: MetaField::MergeOrder,
                got: m.merge_order@.len() as usize,
                n_planes: n,
            },
        )
    } else if n < 2 {
        Some(MetadataFault::TooFewPlanes { min: 2 })
    } else {
        None
    }
}

/// The first fault of an alignment scene's descriptor.
pub open spec fn align_scene_fault(m: AlignSceneMeta) -> Option<MetadataFault> {
    let n = m.n_planes;
    if m.stack@.len() != n {
        Some(
            MetadataFault::WrongLength {
                field: MetaField::Stack,
                got: m.stack@.len() as usize,
                n_planes: n,
            },
        )
    } else if m.alignment_gt@.len() != n {
        Some(
            MetadataFault::WrongLength {
                field: MetaField::AlignmentGt,
                got: m.alignment_gt@.len() as usize,
                n_planes: n,
            },
        )
    } else if n < 1 {
        Some(MetadataFault::TooFewPlanes { min: 1 })
    } else {
        None
    }
}

impl SceneMeta {
    fn fault(&self) -> (r: Option<MetadataFault>)
        ensures
            r == scene_fault(*self),
    {
        let n: usize = self.n_planes;
        let wrong = if self.focus_fractions.len() != n {
            Some((MetaField::FocusFractions, self.focus_fractions.len()))
        } else if self.stack.len() != n {
            Some((MetaField::Stack, self.stack.len()))
        } else if self.masks.len() != n {
            Some((MetaField::Masks, self.masks.len()))
        } else if self.merge_order.len() != n {
            Some((MetaField::MergeOrder, self.merge_order.len()))
        } else {
            None
        };
        match wrong {
            Some((field, got)) => Some(MetadataFault::WrongLength { field, got, n_planes: n }),
            None => if n < 2 {
                Some(MetadataFault::TooFewPlanes { min: 2 })
            } else {
                None
            },
        }
    }

    /// Checks that the descriptor of the scene in a directory is consistent.
    pub fn validate(&self, scene_dir: &str) -> (r: Result<(), DataError>)
        ensures
            match r {
                Ok(_) => scene_fault(*self) is None,
                Err(e) => {
                    &&& e matches DataError::InvalidMetadata { path, reason }
                    &&& is_descriptor_path(scene_dir@, path@)
                    &&& scene_fault(*self) == Some(reason)
                },
            },
    {
        match self.fault() {
            Some(reason) => Err(
                DataError::InvalidMetadata { path: descriptor_path(scene_dir), reason },
            ),
            None => Ok(()),
        }
    }
}

impl AlignSceneMeta {
    fn fault(&self) -> (r: Option<MetadataFault>)
        ensures
            r == align_scene_fault(*self),
    {
        let n: usize = self.n_planes;
        if self.stack.len() != n {
            Some(
                MetadataFault::WrongLength {
                    field: MetaField::Stack,
                    got: self.stack.len(),
                    n_planes: n,
                },
            )
        } else if self.alignment_gt.len() != n {
            Some(
                MetadataFault::WrongLength {
                    field: MetaField::AlignmentGt,
                    got: self.alignment_gt.len(),
                    n_planes: n,
                },
            )
        } else if n < 1 {
            Some(MetadataFault::TooFewPlanes { min: 1 })
        } else {
            None
        }
    }

    /// Checks that the descriptor at `meta_path` is consistent.
    pub fn validate(&self, meta_path: &str) -> (r: Result<(), DataError>)
        ensures
            match r {
                Ok(_) => align_scene_fault(*self) is None,
                Err(e) => {
                    &&& e matches DataError::InvalidMetadata { path, reason }
                    &&& path@ == meta_path@
                    &&& align_scene_fault(*self) == Some(reason)
                },
            },
    {
        match self.fault() {
            Some(reason) => Err(DataError::InvalidMetadata { path: meta_path.to_owned(), reason }),
            None => Ok(()),
        }
    }
}

/// What an image is loaded as.
#[derive(Debug, Clone, Copy, PartialEq, Eq, Structural)]
pub enum LoadKind {
    /// Three planes of colour.
    Rgb,
    /// One plane of weights.
    Gray,
}

/// An image to load: its file name, relative to the scene's directory, and
/// what it is loaded as.
#[derive(Debug, PartialEq, Eq)]
pub struct Load {
    pub kind: LoadKind,
    pub file: String,
}

/// A fusion scene: a rollout of `n_steps` pairwise merges.
#[derive(Debug)]
pub struct RolloutSequence {
    pub scene_dir: String,
    pub meta: SceneMeta,
    pub n_steps: usize,
}

impl RolloutSequence {
    /// A consistent scene has one step fewer than it has planes.
    pub open spec fn wf(self) -> bool {
        scene_fault(self.meta) is None && self.n_steps == self.meta.n_planes - 1
    }

    /// Whether the first `n` entries of the merge order name frames.
    pub open spec fn order_in_range(self, n: int) -> bool {
        forall|i: int| 0 <= i < n ==> #[trigger] self.meta.merge_order@[i] < self.meta.n_planes
    }

    /// A rollout over a scene, refused where its descriptor is inconsistent.
    pub fn new(scene_dir: String, meta: SceneMeta) -> (r: Result<Self, DataError>)
        ensures
            match r {
                Ok(s) => s.wf() && s.scene_dir == scene_dir && s.meta == meta,
                Err(e) => {
                    &&& e matches DataError::InvalidMetadata { path, reason }
                    &&& is_descriptor_path(scene_dir@, path@)
                    &&& scene_fault(meta) == Some(reason)
                },
            },
    {
        match meta.validate(scene_dir.as_str()) {
            Ok(_) => {},
            Err(e) => {
                return Err(e);
            },
        }
        let n_steps: usize = meta.n_planes - 1;
        Ok(RolloutSequence { scene_dir, meta, n_steps })
    }

    /// Whether `load` asks for frame `i` of the merge order.
    pub open spec fn is_frame_load(self, load: Load, i: int) -> bool {
        load.kind == LoadKind::Rgb && load.file@
            == self.meta.stack@[self.meta.merge_order@[i] as int]@
    }

    /// Whether `load` asks for the weights of frame `i` of the merge order.
    pub open spec fn is_mask_load(self, load: Load, i: int) -> bool {
        load.kind == LoadKind::Gray && load.file@
            == self.meta.masks@[self.meta.merge_order@[i] as int]@
    }

    /// Whether `loads` asks for the first `n` frames, each followed by its
    /// weights, and then for the all-in-focus image and the depth edges.
    pub open spec fn loads_prefix(self, loads: Seq<Load>, n: int) -> bool {
        &&& loads.len() >= 2 * n + 2
        &&& forall|i: int|
            0 <= i < n ==> #[trigger] self.is_frame_load(loads[2 * i], i)
        &&& forall|i: int|
            0 <= i < n ==> #[trigger] self.is_mask_load(loads[2 * i + 1], i)
        &&& loads[2 * n].kind == LoadKind::Rgb && loads[2 * n].file@ == self.meta.allfocus@
        &&& loads[2 * n + 1].kind == LoadKind::Gray && loads[2 * n + 1].file@
            == self.meta.occlusion@
    }

    fn prefix_loads(&self, n: usize) -> (r: Vec<Load>)
        requires
            self.wf(),
            n <= self.meta.n_planes,
            self.order_in_range(n as int),
        ensures
            self.loads_prefix(r@, n as int),
            r@.len() == 2 * n + 2,
    {
        let mut loads: Vec<Load> = Vec::new();
        let mut i: usize = 0;
        while i < n
            invariant
                i <= n,
                n <= self.meta.n_planes,
                self.wf(),
                self.order_in_range(n as int),
                loads@.len() == 2 * i,
                forall|j: int| 0 <= j < i ==> #[trigger] self.is_frame_load(loads@[2 * j], j),
                forall|j: int| 0 <= j < i ==> #[trigger] self.is_mask_load(loads@[2 * j + 1], j),
            decreases n - i,
        {
            let ghost before = loads@;
            assert(self.meta.merge_order@[i as int] < self.meta.n_planes);
            let fi: usize = self.meta.merge_order[i];
            loads.push(Load { kind: LoadKind::Rgb, file: self.meta.stack[fi].clone() });
            loads.push(Load { kind: LoadKind::Gray, file: self.meta.masks[fi].clone() });
            proof {
                assert forall|j: int| 0 <= j < i + 1 implies #[trigger] self.is_frame_load(
                    loads@[2 * j],
                    j,
                ) by {
                    if j < i {
                        assert(loads@[2 * j] == before[2 * j]);
                    }
                }
                assert forall|j: int| 0 <= j < i + 1 implies #[trigger] self.is_mask_load(
                    loads@[2 * j + 1],
                    j,
                ) by {
                    if j < i {
                        assert(loads@[2 * j + 1] == before[2 * j + 1]);
                    }
                }
            }
            i = i + 1;
        }
        let ghost before = loads@;
        loads.push(Load { kind: LoadKind::Rgb, file: self.meta.allfocus.clone() });
        loads.push(Load { kind: LoadKind::Gray, file: self.meta.occlusion.clone() });
        proof {
            assert forall|j: int| 0 <= j < n implies #[trigger] self.is_frame_load(
                loads@[2 * j],
                j,
            ) by {
                assert(loads@[2 * j] == before[2 * j]);
            }
            assert forall|j: int| 0 <= j < n implies #[trigger] self.is_mask_load(
                loads@[2 * j + 1],
                j,
            ) by {
                assert(loads@[2 * j + 1] == before[2 * j + 1]);
            }
        }
        loads
    }

    /// The images of step `k`, in loading order: the first `k + 2` frames of
    /// the merge order with their weights, the all-in-focus image, the depth
    /// edges, and once more the frame that the step merges in.
    pub fn step_loads(&self, k: usize) -> (r: Vec<Load>)
        requires
            self.wf(),
            k < self.n_steps,
            self.order_in_range(k + 2),
        ensures
            self.loads_prefix(r@, k + 2),
            r@.len() == 2 * (k + 2) + 3,
            self.is_frame_load(r@[2 * (k + 2) + 2], k + 1),
    {
        let n: usize = k + 2;
        let mut loads = self.prefix_loads(n);
        let ghost before = loads@;
        assert(self.meta.merge_order@[k + 1] < self.meta.n_planes);
        let fi: usize = self.meta.merge_order[k + 1];
        loads.push(Load { kind: LoadKind::Rgb, file: self.meta.stack[fi].clone() });
        proof {
            assert forall|j: int| 0 <= j < n implies #[trigger] self.is_frame_load(
                loads@[2 * j],
                j,
            ) by {
                assert(loads@[2 * j] == before[2 * j]);
                assert(self.is_frame_load(before[2 * j], j));
            }
            assert forall|j: int| 0 <= j < n implies #[trigger] self.is_mask_load(
                loads@[2 * j + 1],
                j,
            ) by {
                assert(loads@[2 * j + 1] == before[2 * j + 1]);
                assert(self.is_mask_load(before[2 * j + 1], j));
            }
        }
        loads
    }

    /// The images of the whole stack, in loading order: every frame of the
    /// merge order with its weights, the all-in-focus image, and the depth
    /// edges.
    pub fn batch_loads(&self) -> (r: Vec<Load>)
        requires
            self.wf(),
            self.order_in_range(self.meta.n_planes as int),
        ensures
            self.loads_prefix(r@, self.meta.n_planes as int),
            r@.len() == 2 * self.meta.n_planes + 2,
    {
        self.prefix_loads(self.meta.n_planes)
    }

    /// Whether the first `n` entries of the merge order name frames.
    pub fn order_is_in_range(&self, n: usize) -> (r: bool)
        requires
            n <= self.meta.merge_order@.len(),
        ensures
            r == self.order_in_range(n as int),
    {
        let mut i: usize = 0;
        while i < n
            invariant
                i <= n,
                n <= self.meta.merge_order@.len(),
                self.order_in_range(i as int),
            decreases n - i,
        {
            if self.meta.merge_order[i] >= self.meta.n_planes {
                assert(!(self.meta.merge_order@[i as int] < self.meta.n_planes));
                return false;
            }
            i = i + 1;
        }
        true
    }
}

/// An alignment scene.
#[derive(Debug)]
pub struct AlignSequence {
    pub scene_dir: String,
    pub meta: AlignSceneMeta,
}

impl AlignSequence {
    /// A consistent scene.
    pub open spec fn wf(self) -> bool {
        align_scene_fault(self.meta) is None
    }

    /// An alignment scene, refused where its descriptor is inconsistent.
    pub fn new(scene_dir: String, meta: AlignSceneMeta) -> (r: Result<Self, DataError>)
        ensures
            match r {
                Ok(s) => s.wf() && s.scene_dir == scene_dir && s.meta == meta,
                Err(e) => {
                    &&& e matches DataError::InvalidMetadata { path, reason }
                    &&& is_descriptor_path(scene_dir@, path@)
                    &&& align_scene_fault(meta) == Some(reason)
                },
            },
    {
        let path = descriptor_path(scene_dir.as_str());
        match meta.validate(path.as_str()) {
            Ok(_) => {},
            Err(e) => {
                return Err(e);
            },
        }
        Ok(AlignSequence { scene_dir, meta })
    }

    /// Whether `e` says that the scene's descriptor has no such frame.
    pub open spec fn is_out_of_range(self, frame_index: usize, e: DataError) -> bool {
        &&& e matches DataError::InvalidMetadata { path, reason }
        &&& is_descriptor_path(self.scene_dir@, path@)
        &&& reason == (MetadataFault::FrameOutOfRange {
            frame_index,
            n_planes: self.meta.n_planes,
        })
    }

    pub(crate) fn out_of_range(&self, frame_index: usize) -> (r: DataError)
        ensures
            self.is_out_of_range(frame_index, r),
    {
        DataError::InvalidMetadata {
            path: descriptor_path(self.scene_dir.as_str()),
            reason: MetadataFault::FrameOutOfRange { frame_index, n_planes: self.meta.n_planes },
        }
    }

    /// The images of the whole scene: every frame, in stack order.
    pub fn stack_loads(&self) -> (r: Vec<Load>)
        ensures
            r@.len() == self.meta.stack@.len(),
            forall|i: int|
                0 <= i < r@.len() ==> (#[trigger] r@[i]).kind == LoadKind::Rgb && r@[i].file@
                    == self.meta.stack@[i]@,
    {
        let mut loads: Vec<Load> = Vec::new();
        let mut i: usize = 0;
        while i < self.meta.stack.len()
            invariant
                i <= self.meta.stack@.len(),
                loads@.len() == i,
                forall|j: int|
                    0 <= j < i ==> (#[trigger] loads@[j]).kind == LoadKind::Rgb && loads@[j].file@
                        == self.meta.stack@[j]@,
            decreases self.meta.stack@.len() - i,
        {
            loads.push(Load { kind: LoadKind::Rgb, file: self.meta.stack[i].clone() });
            i = i + 1;
        }
        loads
    }

    /// The two images of the pair of the reference and frame `frame_index`, in
    /// loading order.
    pub fn pair_loads(&self, frame_index: usize) -> (r: Result<(Load, Load), DataError>)
        requires
            self.wf(),
        ensures
            match r {
                Ok((reference, frame)) => {
                    &&& frame_index < self.meta.n_planes
                    &&& reference.kind == LoadKind::Rgb && reference.file@ == self.meta.stack@[0]@
                    &&& frame.kind == LoadKind::Rgb && frame.file@
                        == self.meta.stack@[frame_index as int]@
                },
                Err(e) => frame_index >= self.meta.n_planes && self.is_out_of_range(
                    frame_index,
                    e,
                ),
            },
    {
        if frame_index >= self.meta.n_planes {
            return Err(self.out_of_range(frame_index));
        }
        let reference = Load { kind: LoadKind::Rgb, file: self.meta.stack[0].clone() };
        let frame = Load { kind: LoadKind::Rgb, file: self.meta.stack[frame_index].clone() };
        Ok((reference, frame))
    }
}

/// A folder of frames without a descriptor: a real focus stack.
#[derive(Debug, PartialEq, Eq)]
pub struct RealStackScene {
    pub scene_dir: String,
    pub frames: Vec<String>,
}

impl Named for RealStackScene {
    open spec fn name_text(self) -> Seq<char> {
        self.scene_dir@
    }

    fn name_before(&self, other: &Self) -> (r: bool) {
        comes_before(self.scene_dir.as_str(), other.scene_dir.as_str())
    }
}

/// Whether a lower-case extension is one of a real stack's frames.
pub open spec fn is_frame_extension(ext: Seq<char>) -> bool {
    ext == "png"@ || ext == "jpg"@ || ext == "jpeg"@ || ext == "tif"@
}

/// An entry of a folder: its path, and whether it is a file.
#[derive(Debug, PartialEq, Eq)]
pub struct FolderItem {
    pub path: String,
    pub is_file: bool,
}

/// The paths of a folder's entries.
pub open spec fn folder_paths(listing: Seq<FolderItem>) -> Seq<Seq<char>> {
    Seq::new(listing.len(), |i: int| listing[i].path@)
}

/// Whether an entry with this lower-case extension is a frame of a real stack:
/// an image file, not a directory.
pub open spec fn is_frame_file(item: FolderItem, ext: Option<Seq<char>>) -> bool {
    match ext {
        Some(e) => item.is_file && is_frame_extension(e),
        None => false,
    }
}

/// The paths of the frames among a folder's entries, in the order given.
/// `exts[i]` is the lower-case extension of entry `i`.
pub open spec fn frame_files(listing: Seq<FolderItem>, exts: Seq<Option<Seq<char>>>) -> Seq<String>
    decreases listing.len(),
{
    if listing.len() == 0 {
        Seq::empty()
    } else {
        let before = frame_files(listing.drop_last(), exts);
        if is_frame_file(listing.last(), exts[listing.len() - 1]) {
            before.push(listing.last().path)
        } else {
            before
        }
    }
}

proof fn lemma_frames_of_prefix(
    listing: Seq<FolderItem>,
    a: Seq<Option<Seq<char>>>,
    b: Seq<Option<Seq<char>>>,
)
    requires
        forall|i: int| 0 <= i < listing.len() ==> a[i] == b[i],
    ensures
        frame_files(listing, a) == frame_files(listing, b),
    decreases listing.len(),
{
    if listing.len() > 0 {
        lemma_frames_of_prefix(listing.drop_last(), a, b);
    }
}

/// Whether a file with this lower-case extension is a frame of a real stack.
pub fn frame_extension(ext: &Option<String>) -> (r: bool)
    ensures
        r == (match *ext {
            Some(e) => is_frame_extension(e@),
            None => false,
        }),
{
    match ext {
        Some(e) => same(e.as_str(), "png") || same(e.as_str(), "jpg") || same(e.as_str(), "jpeg")
            || same(e.as_str(), "tif"),
        None => false,
    }
}

impl RealStackScene {
    /// The stack of a folder: its image files, sorted by path. A directory is
    /// no frame, whatever its name.
    pub fn new(scene_dir: String, listing: Vec<FolderItem>) -> (r: Self)
        ensures
            r.scene_dir == scene_dir,
            exists|exts: Seq<Option<Seq<char>>>| #[trigger]
                reads_all(folder_paths(listing@), exts) && is_sorted_listing(
                    frame_files(listing@, exts),
                    r.frames@,
                ),
            all_portable(folder_paths(listing@)) ==> is_sorted_listing(
                frame_files(listing@, plain_extensions(folder_paths(listing@))),
                r.frames@,
            ),
    {
        let ghost all = listing@;
        let ghost mut exts: Seq<Option<Seq<char>>> = Seq::empty();
        let mut kept: Vec<String> = Vec::new();
        for item in it: listing
            invariant
                it.seq() == all,
                exts.len() == it.index(),
                reads_all(folder_paths(all).take(it.index() as int), exts),
                kept@ == frame_files(all.take(it.index() as int), exts),
        {
            let ext = folded_extension(item.path.as_str());
            proof {
                let i = it.index() as int;
                let next = exts.push(opt_text(ext));
                assert(all.take(i + 1).drop_last() == all.take(i));
                assert(all.take(i + 1).last() == item);
                lemma_frames_of_prefix(all.take(i), exts, next);
                let paths = folder_paths(all).take(i + 1);
                assert forall|k: int| 0 <= k < paths.len() implies reads_folded(
                    #[trigger] paths[k],
                    next[k],
                ) by {
                    if k < i {
                        assert(folder_paths(all).take(i)[k] == paths[k]);
                    }
                }
                exts = next;
            }
            if item.is_file && frame_extension(&ext) {
                kept.push(item.path);
            }
        }
        proof {
            assert(all.take(all.len() as int) == all);
            assert(folder_paths(all).take(all.len() as int) == folder_paths(all));
            assert(reads_all(folder_paths(all), exts));
            if all_portable(folder_paths(all)) {
                law_portable_paths_read_alike(folder_paths(all), exts);
            }
        }
        RealStackScene { scene_dir, frames: sort_by_name(kept) }
    }

    /// Number of frames.
    pub fn len(&self) -> (r: usize)
        ensures
            r == self.frames@.len(),
    {
        self.frames.len()
    }

    /// Whether the folder holds no frame.
    pub fn is_empty(&self) -> (r: bool)
        ensures
            r == (self.frames@.len() == 0),
    {
        self.frames.len() == 0
    }
}

/// The scenes that hold frames, in the order given.
pub open spec fn with_frames(scenes: Seq<RealStackScene>) -> Seq<RealStackScene> {
    scenes.filter(|s: RealStackScene| s.frames@.len() > 0)
}

/// The real stacks of a folder of folders: those that hold frames, sorted by
/// directory.
pub fn discover_real_stacks(scenes: Vec<RealStackScene>) -> (r: Vec<RealStackScene>)
    ensures
        is_sorted_listing(with_frames(scenes@), r@),
{
    let ghost all = scenes@;
    let mut kept: Vec<RealStackScene> = Vec::new();
    for scene in it: scenes
        invariant
            it.seq() == all,
            kept@ == with_frames(all.take(it.index() as int)),
    {
        proof {
            reveal(Seq::filter);
            assert(all.take(it.index() + 1).drop_last() == all.take(it.index() as int));
            assert(all.take(it.index() + 1).last() == scene);
        }
        if !scene.is_empty() {
            kept.push(scene);
        }
    }
    assert(all.take(all.len() as int) == all);
    sort_by_name(kept)
}

/// The files that a list of images loads as one kind, in loading order.
pub open spec fn files_of(loads: Seq<Load>, kind: LoadKind) -> Seq<Seq<char>>
    decreases loads.len(),
{
    if loads.len() == 0 {
        Seq::empty()
    } else {
        let before = files_of(loads.drop_last(), kind);
        if loads.last().kind == kind {
            before.push(loads.last().file@)
        } else {
            before
        }
    }
}

proof fn lemma_files_step(loads: Seq<Load>, n: int, kind: LoadKind)
    requires
        0 <= n < loads.len(),
    ensures
        files_of(loads.take(n + 1), kind) == if loads[n].kind == kind {
            files_of(loads.take(n), kind).push(loads[n].file@)
        } else {
            files_of(loads.take(n), kind)
        },
{
    assert(loads.take(n + 1).drop_last() =~= loads.take(n));
    assert(loads.take(n + 1).last() == loads[n]);
}

proof fn lemma_prefix_files(scene: RolloutSequence, loads: Seq<Load>, n: int, j: int)
    requires
        scene.loads_prefix(loads, n),
        0 <= j <= n,
    ensures
        files_of(loads.take(2 * j), LoadKind::Rgb) == Seq::new(
            j as nat,
            |i: int| scene.meta.stack@[scene.meta.merge_order@[i] as int]@,
        ),
        files_of(loads.take(2 * j), LoadKind::Gray) == Seq::new(
            j as nat,
            |i: int| scene.meta.masks@[scene.meta.merge_order@[i] as int]@,
        ),
    decreases j,
{
    if j == 0 {
        assert(loads.take(0) =~= Seq::<Load>::empty());
    } else {
        let i = j - 1;
        lemma_prefix_files(scene, loads, n, i);
        lemma_files_step(loads, 2 * i, LoadKind::Rgb);
        lemma_files_step(loads, 2 * i, LoadKind::Gray);
        lemma_files_step(loads, 2 * i + 1, LoadKind::Rgb);
        lemma_files_step(loads, 2 * i + 1, LoadKind::Gray);
        assert(scene.is_frame_load(loads[2 * i], i));
        assert(scene.is_mask_load(loads[2 * i + 1], i));
        assert(2 * i + 1 + 1 == 2 * j);
    }
}

/// What a step loads: as colours the frames that have been merged and the one
/// that it merges in, by the merge order, then the all-in-focus image, and
/// last the frame that it merges in once more; as weights the maps of the same
/// frames, then the depth edges.
pub proof fn law_step_loads_its_frames(scene: RolloutSequence, k: usize, loads: Vec<Load>)
    requires
        call_ensures(RolloutSequence::step_loads, (&scene, k), loads),
    ensures
        ({
            let rgb = files_of(loads@, LoadKind::Rgb);
            let gray = files_of(loads@, LoadKind::Gray);
            let order = scene.meta.merge_order@;
            &&& rgb.len() == k + 4
            &&& gray.len() == k + 3
            &&& forall|i: int|
                0 <= i < k + 2 ==> #[trigger] rgb[i] == scene.meta.stack@[order[i] as int]@
            &&& rgb[k + 2] == scene.meta.allfocus@
            &&& rgb[k + 3] == scene.meta.stack@[order[k + 1] as int]@
            &&& forall|i: int|
                0 <= i < k + 2 ==> #[trigger] gray[i] == scene.meta.masks@[order[i] as int]@
            &&& gray[k + 2] == scene.meta.occlusion@
        }),
{
    let all = loads@;
    let n = k + 2;
    lemma_prefix_files(scene, all, n, n);
    lemma_files_step(all, 2 * n, LoadKind::Rgb);
    lemma_files_step(all, 2 * n, LoadKind::Gray);
    lemma_files_step(all, 2 * n + 1, LoadKind::Rgb);
    lemma_files_step(all, 2 * n + 1, LoadKind::Gray);
    lemma_files_step(all, 2 * n + 2, LoadKind::Rgb);
    lemma_files_step(all, 2 * n + 2, LoadKind::Gray);
    assert(all.take(2 * n + 3) =~= all);
}

/// What a whole stack loads: as colours every frame, by the merge order, then
/// the all-in-focus image; as weights the frames' maps, then the depth edges.
pub proof fn law_batch_loads_every_frame(scene: RolloutSequence, loads: Vec<Load>)
    requires
        call_ensures(RolloutSequence::batch_loads, (&scene,), loads),
    ensures
        ({
            let rgb = files_of(loads@, LoadKind::Rgb);
            let gray = files_of(loads@, LoadKind::Gray);
            let order = scene.meta.merge_order@;
            let n = scene.meta.n_planes as int;
            &&& rgb.len() == n + 1
            &&& gray.len() == n + 1
            &&& forall|i: int|
                0 <= i < n ==> #[trigger] rgb[i] == scene.meta.stack@[order[i] as int]@
            &&& rgb[n] == scene.meta.allfocus@
            &&& forall|i: int|
                0 <= i < n ==> #[trigger] gray[i] == scene.meta.masks@[order[i] as int]@
            &&& gray[n] == scene.meta.occlusion@
        }),
{
    let all = loads@;
    let n = scene.meta.n_planes as int;
    lemma_prefix_files(scene, all, n, n);
    lemma_files_step(all, 2 * n, LoadKind::Rgb);
    lemma_files_step(all, 2 * n, LoadKind::Gray);
    lemma_files_step(all, 2 * n + 1, LoadKind::Rgb);
    lemma_files_step(all, 2 * n + 1, LoadKind::Gray);
    assert(all.take(2 * n + 2) =~= all);
}

/// An alignment scene loads its frames as colours, in stack order, and a pair
/// loads the first of them and the frame asked for.
pub proof fn law_alignment_loads_its_frames(
    scene: AlignSequence,
    frame_index: usize,
    loads: Vec<Load>,
    pair: (Load, Load),
)
    requires
        scene.wf(),
        call_ensures(AlignSequence::stack_loads, (&scene,), loads),
        call_ensures(AlignSequence::pair_loads, (&scene, frame_index), Ok((pair.0, pair.1))),
    ensures
        loads@.len() == scene.meta.n_planes,
        forall|i: int| 0 <= i < loads@.len() ==> (#[trigger] loads@[i]).kind is Rgb,
        frame_index < loads@.len(),
        pair.0.kind == loads@[0].kind && pair.0.file@ == loads@[0].file@,
        pair.1.kind == loads@[frame_index as int].kind,
        pair.1.file@ == loads@[frame_index as int].file@,
        forall|i: int|
            0 <= i < loads@.len() ==> (#[trigger] loads@[i]).file@ == scene.meta.stack@[i]@,
{
}

proof fn lemma_lengths<T>(v: Vec<T>)
    ensures
        v@.len() as usize as nat == v@.len(),
{
    assert(v.len() == v@.len());
}

/// A fusion scene's descriptor is consistent where every per-plane field has
/// one entry for each of at least two planes, and only there.
pub proof fn law_scene_has_an_entry_per_plane(m: SceneMeta)
    ensures
        scene_fault(m) is None <==> (m.n_planes >= 2 && m.focus_fractions@.len() == m.n_planes
            && m.stack@.len() == m.n_planes && m.masks@.len() == m.n_planes && m.merge_order@.len()
            == m.n_planes),
        scene_fault(m) matches Some(MetadataFault::WrongLength { field, got, n_planes }) ==> {
            &&& n_planes == m.n_planes
            &&& got != n_planes
            &&& field is FocusFractions ==> got == m.focus_fractions@.len() as usize
            &&& field is Stack ==> got == m.stack@.len() as usize && m.focus_fractions@.len()
                == n_planes
            &&& field is Masks ==> got == m.masks@.len() as usize && m.stack@.len() == n_planes
            &&& field is MergeOrder ==> got == m.merge_order@.len() as usize && m.masks@.len()
                == n_planes
            &&& field !is AlignmentGt
        },
        scene_fault(m) matches Some(MetadataFault::TooFewPlanes { min }) ==> m.n_planes < min
            && m.stack@.len() == m.n_planes && min == 2,
        !(scene_fault(m) matches Some(MetadataFault::FrameOutOfRange { .. })),
{
    lemma_lengths(m.focus_fractions);
    lemma_lengths(m.stack);
    lemma_lengths(m.masks);
    lemma_lengths(m.merge_order);
}

/// An alignment scene's descriptor is consistent where there is a file and a
/// matrix for each of at least one plane, and only there.
pub proof fn law_alignment_scene_has_an_entry_per_plane(m: AlignSceneMeta)
    ensures
        align_scene_fault(m) is None <==> (m.n_planes >= 1 && m.stack@.len() == m.n_planes
            && m.alignment_gt@.len() == m.n_planes),
        align_scene_fault(m) matches Some(MetadataFault::WrongLength { field, got, n_planes }) ==> {
            &&& n_planes == m.n_planes
            &&& got != n_planes
            &&& field is Stack ==> got == m.stack@.len() as usize
            &&& field is AlignmentGt ==> got == m.alignment_gt@.len() as usize && m.stack@.len()
                == n_planes
            &&& field is Stack || field is AlignmentGt
        },
        align_scene_fault(m) matches Some(MetadataFault::TooFewPlanes { min }) ==> m.n_planes < min
            && m.stack@.len() == m.n_planes && min == 1,
        !(align_scene_fault(m) matches Some(MetadataFault::FrameOutOfRange { .. })),
{
    lemma_lengths(m.stack);
    lemma_lengths(m.alignment_gt);
}

/// A folder's frames are the paths of its image files and no others: an entry
/// is kept where it is a file whose lower-case extension is one of a frame's.
pub proof fn law_frames_are_image_files(
    listing: Seq<FolderItem>,
    exts: Seq<Option<Seq<char>>>,
    path: String,
)
    ensures
        frame_files(listing, exts).contains(path) <==> exists|i: int|
            0 <= i < listing.len() && (#[trigger] listing[i]).path == path && listing[i].is_file
                && (exts[i] == Some("png"@) || exts[i] == Some("jpg"@) || exts[i] == Some("jpeg"@)
                || exts[i] == Some("tif"@)),
        frame_files(listing, exts).len() <= listing.len(),
    decreases listing.len(),
{
    if listing.len() > 0 {
        let init = listing.drop_last();
        let n = listing.len() - 1;
        let before = frame_files(init, exts);
        let after = frame_files(listing, exts);
        law_frames_are_image_files(init, exts, path);
        if before.contains(path) {
            let i = choose|i: int|
                0 <= i < init.len() && (#[trigger] init[i]).path == path && init[i].is_file && (
                exts[i] == Some("png"@) || exts[i] == Some("jpg"@) || exts[i] == Some("jpeg"@)
                    || exts[i] == Some("tif"@));
            assert(listing[i] == init[i]);
            let at = choose|at: int| 0 <= at < before.len() && before[at] == path;
            assert(after[at] == path);
        }
        if is_frame_file(listing[n], exts[n]) {
            assert(after[after.len() - 1] == listing[n].path);
            if after.contains(path) && !before.contains(path) {
                let at = choose|at: int| 0 <= at < after.len() && after[at] == path;
                if at < before.len() {
                    assert(before[at] == path);
                }
                assert(listing[n].path == path);
            }
        }
        if exists|i: int|
            0 <= i < listing.len() && (#[trigger] listing[i]).path == path && listing[i].is_file
                && (exts[i] == Some("png"@) || exts[i] == Some("jpg"@) || exts[i] == Some("jpeg"@)
                || exts[i] == Some("tif"@)) {
            let i = choose|i: int|
                0 <= i < listing.len() && (#[trigger] listing[i]).path == path && listing[i].is_file
                    && (exts[i] == Some("png"@) || exts[i] == Some("jpg"@) || exts[i] == Some(
                    "jpeg"@,
                ) || exts[i] == Some("tif"@));
            if i < n {
                assert(init[i].path == path);
            }
        }
    }
}

/// A fusion scene has a step for each of its planes but the first, and keeps
/// the directory and descriptor that it is given. It is refused exactly where
/// the descriptor has a fault.
pub proof fn law_scene_has_a_step_per_later_plane(
    scene_dir: String,
    meta: SceneMeta,
    r: Result<RolloutSequence, DataError>,
)
    requires
        call_ensures(RolloutSequence::new, (scene_dir, meta), r),
    ensures
        r is Ok <==> scene_fault(meta) is None,
        r matches Ok(s) ==> s.n_steps + 1 == meta.n_planes && s.meta == meta && s.scene_dir
            == scene_dir,
{
}

/// The real stacks kept are those that hold a frame, and no others.
pub proof fn law_stacks_with_frames_are_kept(
    scenes: Seq<RealStackScene>,
    more: Seq<RealStackScene>,
    scene: RealStackScene,
)
    ensures
        with_frames(scenes).contains(scene) <==> scenes.contains(scene) && scene.frames@.len() > 0,
        with_frames(scenes + more) == with_frames(scenes) + with_frames(more),
    decreases scenes.len(),
{
    reveal(Seq::filter);
    let usable = |s: RealStackScene| s.frames@.len() > 0;
    Seq::filter_distributes_over_add(scenes, more, usable);
    if scenes.len() > 0 {
        let init = scenes.drop_last();
        let before = with_frames(init);
        let after = with_frames(scenes);
        law_stacks_with_frames_are_kept(init, more, scene);
        if before.contains(scene) {
            let at = choose|at: int| 0 <= at < before.len() && before[at] == scene;
            assert(after[at] == scene);
            let j = choose|j: int| 0 <= j < init.len() && init[j] == scene;
            assert(scenes[j] == scene);
        }
        if usable(scenes.last()) {
            assert(after == before.push(scenes.last()));
            assert(after[before.len() as int] == scenes.last());
            assert(scenes[scenes.len() - 1] == scenes.last());
        }
        if after.contains(scene) && !before.contains(scene) {
            let at = choose|at: int| 0 <= at < after.len() && after[at] == scene;
            if at < before.len() {
                assert(before[at] == scene);
            }
        }
        if scenes.contains(scene) && scene.frames@.len() > 0 {
            let j = choose|j: int| 0 <= j < scenes.len() && scenes[j] == scene;
            if j < init.len() {
                assert(init[j] == scene);
            }
        }
    }
}

} // verus!
