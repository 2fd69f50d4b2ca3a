//! Discovery of trained models: manifests, architecture tags, and the lists
//! that model pickers show.
//!
//! A model is a weights file `<name>.mpk` with a manifest `<name>.json`
//! beside it. The manifest's architecture tag says which of the four network
//! families the weights belong to, and each loader accepts its own tag only.

use vstd::prelude::*;
use crate::model::{
    batch_align_preset, batch_preset, focus_preset, fusion_align_preset, BatchAlignNetConfig,
    BatchMergeNetConfig, FocusMergeNetConfig, FusionAlignNetConfig, ModelSize,
};
use crate::paths::{
    extension, extension_of, file_name, is_sorted_listing, law_listing_adds_nothing,
    law_listing_holds_all, law_listing_is_ordered, opt_text, portable, reads_extension, reads_stem,
    sort_by_name, stem, stem_of, Named,
};
use crate::text::{comes_before, same, text_before};

verus! {

/// Tag of the pairwise fusion network.
pub const FOCUSMERGE_V1: &'static str = "focusmerge-v1";

/// Tag of the batch fusion network.
pub const BATCHMERGE_V2: &'static str = "batchmerge-v2";

/// Tag of the batch alignment network.
pub const BATCHALIGN_V2: &'static str = "batchalign-v2";

/// Tag of the pairwise alignment network.
pub const FUSIONALIGN_V1: &'static str = "fusionalign-v1";

/// The tag of a manifest that names none.
pub fn default_architecture() -> (r: String)
    ensures
        r@ == FOCUSMERGE_V1@,
{
    FOCUSMERGE_V1.to_owned()
}

/// Whether a tag names a fusion network.
pub open spec fn is_fusion_tag(tag: Seq<char>) -> bool {
    tag == FOCUSMERGE_V1@ || tag == BATCHMERGE_V2@
}

/// Whether a tag names an alignment network.
pub open spec fn is_alignment_tag(tag: Seq<char>) -> bool {
    tag == BATCHALIGN_V2@ || tag == FUSIONALIGN_V1@
}

/// Whether a tag names one of the four network families.
pub open spec fn is_known_tag(tag: Seq<char>) -> bool {
    is_fusion_tag(tag) || is_alignment_tag(tag)
}

proof fn lemma_tags_differ()
    ensures
        FOCUSMERGE_V1@ != BATCHMERGE_V2@,
        FOCUSMERGE_V1@ != BATCHALIGN_V2@,
        FOCUSMERGE_V1@ != FUSIONALIGN_V1@,
        BATCHMERGE_V2@ != BATCHALIGN_V2@,
        BATCHMERGE_V2@ != FUSIONALIGN_V1@,
        BATCHALIGN_V2@ != FUSIONALIGN_V1@,
{
    reveal_strlit("focusmerge-v1");
    reveal_strlit("batchmerge-v2");
    reveal_strlit("batchalign-v2");
    reveal_strlit("fusionalign-v1");
    assert(FOCUSMERGE_V1@[0] == 'f');
    assert(FOCUSMERGE_V1@[1] == 'o');
    assert(BATCHMERGE_V2@[0] == 'b');
    assert(BATCHMERGE_V2@[5] == 'm');
    assert(BATCHALIGN_V2@[0] == 'b');
    assert(BATCHALIGN_V2@[5] == 'a');
    assert(FUSIONALIGN_V1@[0] == 'f');
    assert(FUSIONALIGN_V1@[1] == 'u');
}

/// A known tag names a fusion network or an alignment network, never both.
pub proof fn law_kinds_are_disjoint(tag: Seq<char>)
    ensures
        !(is_fusion_tag(tag) && is_alignment_tag(tag)),
{
    lemma_tags_differ();
}

/// Of the four loaders, exactly one accepts a known tag, and none accepts any
/// other.
pub proof fn law_one_loader_per_tag(tag: Seq<char>)
    ensures
        ({
            let accepting = (if tag == FOCUSMERGE_V1@ { 1int } else { 0 }) + (if tag
                == BATCHMERGE_V2@ { 1int } else { 0 }) + (if tag == BATCHALIGN_V2@ { 1int } else { 0
            }) + (if tag == FUSIONALIGN_V1@ { 1int } else { 0 });
            accepting == (if is_known_tag(tag) { 1int } else { 0 })
        }),
{
    lemma_tags_differ();
}

/// Why a model cannot be used as asked.
#[derive(Debug, PartialEq, Eq)]
pub enum DiscoveryError {
    /// The manifest names another architecture than the loader takes.
    ArchitectureMismatch { expected: &'static str, found: String, path: String },
}

/// Sidecar manifest of a trained model. The optional fields override the
/// preset's geometry; `refine_scale` holds the bit pattern of a double.
#[derive(Debug, PartialEq, Eq)]
pub struct ModelManifest {
    pub architecture: String,
    pub size: ModelSize,
    pub width: Option<usize>,
    pub depth: Option<usize>,
    pub norm_groups: Option<usize>,
    pub refine_scale: Option<u64>,
    pub corr_radius: Option<usize>,
    pub description: String,
}

impl Clone for ModelManifest {
    fn clone(&self) -> (r: Self)
        ensures
            r == *self,
    {
        ModelManifest {
            architecture: self.architecture.clone(),
            size: self.size,
            width: self.width,
            depth: self.depth,
            norm_groups: self.norm_groups,
            refine_scale: self.refine_scale,
            corr_radius: self.corr_radius,
            description: self.description.clone(),
        }
    }
}

/// `o`'s value, or `d` where it has none.
pub open spec fn value_or<T>(o: Option<T>, d: T) -> T {
    match o {
        Some(v) => v,
        None => d,
    }
}

fn pick<T: Copy>(o: Option<T>, d: T) -> (r: T)
    ensures
        r == value_or(o, d),
{
    match o {
        Some(v) => v,
        None => d,
    }
}

/// The pairwise fusion geometry that a manifest describes.
pub open spec fn focus_config_of(m: ModelManifest) -> FocusMergeNetConfig {
    let p = focus_preset(m.size);
    FocusMergeNetConfig {
        width: value_or(m.width, p.width),
        depth: value_or(m.depth, p.depth),
        norm_groups: value_or(m.norm_groups, p.norm_groups),
        refine_scale: value_or(m.refine_scale, p.refine_scale),
    }
}

/// The batch fusion geometry that a manifest describes.
pub open spec fn batch_config_of(m: ModelManifest) -> BatchMergeNetConfig {
    let p = batch_preset(m.size);
    BatchMergeNetConfig {
        width: value_or(m.width, p.width),
        depth: value_or(m.depth, p.depth),
        norm_groups: value_or(m.norm_groups, p.norm_groups),
        refine_scale: value_or(m.refine_scale, p.refine_scale),
    }
}

/// The batch alignment geometry that a manifest describes.
pub open spec fn align_config_of(m: ModelManifest) -> BatchAlignNetConfig {
    let p = batch_align_preset(m.size);
    BatchAlignNetConfig {
        width: value_or(m.width, p.width),
        depth: value_or(m.depth, p.depth),
        norm_groups: value_or(m.norm_groups, p.norm_groups),
        corr_radius: value_or(m.corr_radius, p.corr_radius),
    }
}

/// The pairwise alignment geometry that a manifest describes.
pub open spec fn fusion_align_config_of(m: ModelManifest) -> FusionAlignNetConfig {
    let p = fusion_align_preset(m.size);
    FusionAlignNetConfig {
        width: value_or(m.width, p.width),
        depth: value_or(m.depth, p.depth),
        norm_groups: value_or(m.norm_groups, p.norm_groups),
        corr_radius: value_or(m.corr_radius, p.corr_radius),
    }
}

/// Whether a manifest records the pairwise fusion preset of a size in full.
pub open spec fn records_focus(m: ModelManifest, size: ModelSize) -> bool {
    let p = focus_preset(size);
    &&& m.architecture@ == FOCUSMERGE_V1@
    &&& m.size == size
    &&& m.width == Some(p.width)
    &&& m.depth == Some(p.depth)
    &&& m.norm_groups == Some(p.norm_groups)
    &&& m.refine_scale == Some(p.refine_scale)
    &&& m.corr_radius is None
    &&& m.description@.len() == 0
}

/// Whether a manifest records the batch fusion preset of a size in full.
pub open spec fn records_batch(m: ModelManifest, size: ModelSize) -> bool {
    let p = batch_preset(size);
    &&& m.architecture@ == BATCHMERGE_V2@
    &&& m.size == size
    &&& m.width == Some(p.width)
    &&& m.depth == Some(p.depth)
    &&& m.norm_groups == Some(p.norm_groups)
    &&& m.refine_scale == Some(p.refine_scale)
    &&& m.corr_radius is None
    &&& m.description@.len() == 0
}

/// Whether a manifest records the batch alignment preset of a size in full.
pub open spec fn records_align(m: ModelManifest, size: ModelSize) -> bool {
    let p = batch_align_preset(size);
    &&& m.architecture@ == BATCHALIGN_V2@
    &&& m.size == size
    &&& m.width == Some(p.width)
    &&& m.depth == Some(p.depth)
    &&& m.norm_groups == Some(p.norm_groups)
    &&& m.refine_scale is None
    &&& m.corr_radius == Some(p.corr_radius)
    &&& m.description@.len() == 0
}

/// Whether a manifest records the pairwise alignment preset of a size in full.
pub open spec fn records_fusion_align(m: ModelManifest, size: ModelSize) -> bool {
    let p = fusion_align_preset(size);
    &&& m.architecture@ == FUSIONALIGN_V1@
    &&& m.size == size
    &&& m.width == Some(p.width)
    &&& m.depth == Some(p.depth)
    &&& m.norm_groups == Some(p.norm_groups)
    &&& m.refine_scale is None
    &&& m.corr_radius == Some(p.corr_radius)
    &&& m.description@.len() == 0
}

/// A manifest written for a preset gives the preset's geometry back, in each
/// of the four families.
pub proof fn law_manifest_round_trip(m: ModelManifest, size: ModelSize)
    ensures
        records_focus(m, size) ==> focus_config_of(m) == focus_preset(size),
        records_batch(m, size) ==> batch_config_of(m) == batch_preset(size),
        records_align(m, size) ==> align_config_of(m) == batch_align_preset(size),
        records_fusion_align(m, size) ==> fusion_align_config_of(m) == fusion_align_preset(size),
{
}

impl ModelManifest {
    /// A pairwise fusion manifest of a preset, with its exact geometry.
    pub fn from_size(size: ModelSize) -> (r: Self)
        ensures
            records_focus(r, size),
    {
        let cfg = FocusMergeNetConfig::from_size(size);
        ModelManifest {
            architecture: FOCUSMERGE_V1.to_owned(),
            size,
            width: Some(cfg.width),
            depth: Some(cfg.depth),
            norm_groups: Some(cfg.norm_groups),
            refine_scale: Some(cfg.refine_scale),
            corr_radius: None,
            description: String::new(),
        }
    }

    /// A batch fusion manifest of a preset, with its exact geometry.
    pub fn from_size_batch(size: ModelSize) -> (r: Self)
        ensures
            records_batch(r, size),
    {
        let cfg = BatchMergeNetConfig::from_size(size);
        ModelManifest {
            architecture: BATCHMERGE_V2.to_owned(),
            size,
            width: Some(cfg.width),
            depth: Some(cfg.depth),
            norm_groups: Some(cfg.norm_groups),
            refine_scale: Some(cfg.refine_scale),
            corr_radius: None,
            description: String::new(),
        }
    }

    /// A batch alignment manifest of a preset, with its exact geometry.
    pub fn from_size_align(size: ModelSize) -> (r: Self)
        ensures
            records_align(r, size),
    {
        let cfg = BatchAlignNetConfig::from_size(size);
        ModelManifest {
            architecture: BATCHALIGN_V2.to_owned(),
            size,
            width: Some(cfg.width),
            depth: Some(cfg.depth),
            norm_groups: Some(cfg.norm_groups),
            refine_scale: None,
            corr_radius: Some(cfg.corr_radius),
            description: String::new(),
        }
    }

    /// A pairwise alignment manifest of a preset, with its exact geometry.
    pub fn from_size_fusion_align(size: ModelSize) -> (r: Self)
        ensures
            records_fusion_align(r, size),
    {
        let cfg = FusionAlignNetConfig::from_size(size);
        ModelManifest {
            architecture: FUSIONALIGN_V1.to_owned(),
            size,
            width: Some(cfg.width),
            depth: Some(cfg.depth),
            norm_groups: Some(cfg.norm_groups),
            refine_scale: None,
            corr_radius: Some(cfg.corr_radius),
            description: String::new(),
        }
    }

    /// The pairwise fusion geometry this manifest describes.
    pub fn to_config(&self) -> (r: FocusMergeNetConfig)
        ensures
            r == focus_config_of(*self),
    {
        let p = FocusMergeNetConfig::from_size(self.size);
        FocusMergeNetConfig {
            width: pick(self.width, p.width),
            depth: pick(self.depth, p.depth),
            norm_groups: pick(self.norm_groups, p.norm_groups),
            refine_scale: pick(self.refine_scale, p.refine_scale),
        }
    }

    /// The batch fusion geometry this manifest describes.
    pub fn to_batch_config(&self) -> (r: BatchMergeNetConfig)
        ensures
            r == batch_config_of(*self),
    {
        let p = BatchMergeNetConfig::from_size(self.size);
        BatchMergeNetConfig {
            width: pick(self.width, p.width),
            depth: pick(self.depth, p.depth),
            norm_groups: pick(self.norm_groups, p.norm_groups),
            refine_scale: pick(self.refine_scale, p.refine_scale),
        }
    }

    /// The batch alignment geometry this manifest describes.
    pub fn to_align_config(&self) -> (r: BatchAlignNetConfig)
        ensures
            r == align_config_of(*self),
    {
        let p = BatchAlignNetConfig::from_size(self.size);
        BatchAlignNetConfig {
            width: pick(self.width, p.width),
            depth: pick(self.depth, p.depth),
            norm_groups: pick(self.norm_groups, p.norm_groups),
            corr_radius: pick(self.corr_radius, p.corr_radius),
        }
    }

    /// The pairwise alignment geometry this manifest describes.
    pub fn to_fusion_align_config(&self) -> (r: FusionAlignNetConfig)
        ensures
            r == fusion_align_config_of(*self),
    {
        let p = FusionAlignNetConfig::from_size(self.size);
        FusionAlignNetConfig {
            width: pick(self.width, p.width),
            depth: pick(self.depth, p.depth),
            norm_groups: pick(self.norm_groups, p.norm_groups),
            corr_radius: pick(self.corr_radius, p.corr_radius),
        }
    }
}

/// A discovered model: its name, its weights file and its manifest.
#[derive(Debug, PartialEq, Eq)]
pub struct ModelEntry {
    pub name: String,
    pub weights_path: String,
    pub manifest: ModelManifest,
}

impl Clone for ModelEntry {
    fn clone(&self) -> (r: Self)
        ensures
            r == *self,
    {
        ModelEntry {
            name: self.name.clone(),
            weights_path: self.weights_path.clone(),
            manifest: self.manifest.clone(),
        }
    }
}

impl Named for ModelEntry {
    open spec fn name_text(self) -> Seq<char> {
        self.name@
    }

    fn name_before(&self, other: &Self) -> (r: bool) {
        comes_before(self.name.as_str(), other.name.as_str())
    }
}

/// The refusal of a loader that takes `expected` when handed `entry`.
pub open spec fn is_mismatch(e: DiscoveryError, expected: Seq<char>, entry: ModelEntry) -> bool {
    match e {
        DiscoveryError::ArchitectureMismatch { expected: x, found, path } => {
            &&& x@ == expected
            &&& found@ == entry.manifest.architecture@
            &&& path@ == entry.weights_path@
        },
    }
}

impl ModelEntry {
    /// The entry's architecture tag.
    pub open spec fn tag(self) -> Seq<char> {
        self.manifest.architecture@
    }

    /// Whether the entry holds a fusion network.
    pub fn is_fusion(&self) -> (r: bool)
        ensures
            r == is_fusion_tag(self.tag()),
    {
        let tag = self.manifest.architecture.as_str();
        same(tag, FOCUSMERGE_V1) || same(tag, BATCHMERGE_V2)
    }

    /// Whether the entry holds an alignment network, of either kind.
    pub fn is_alignment(&self) -> (r: bool)
        ensures
            r == is_alignment_tag(self.tag()),
    {
        let tag = self.manifest.architecture.as_str();
        same(tag, BATCHALIGN_V2) || same(tag, FUSIONALIGN_V1)
    }

    /// Whether the entry holds the whole-stack alignment network.
    pub fn is_batch_alignment(&self) -> (r: bool)
        ensures
            r == (self.tag() == BATCHALIGN_V2@),
    {
        same(self.manifest.architecture.as_str(), BATCHALIGN_V2)
    }

    /// Whether the entry holds the pairwise alignment network.
    pub fn is_pairwise_alignment(&self) -> (r: bool)
        ensures
            r == (self.tag() == FUSIONALIGN_V1@),
    {
        same(self.manifest.architecture.as_str(), FUSIONALIGN_V1)
    }

    fn mismatch(&self, expected: &'static str) -> (r: DiscoveryError)
        ensures
            is_mismatch(r, expected@, *self),
    {
        DiscoveryError::ArchitectureMismatch {
            expected,
            found: self.manifest.architecture.clone(),
            path: self.weights_path.clone(),
        }
    }

    /// The geometry to read the weights into as a pairwise fusion network.
    pub fn load(&self) -> (r: Result<FocusMergeNetConfig, DiscoveryError>)
        ensures
            match r {
                Ok(cfg) => self.tag() == FOCUSMERGE_V1@ && cfg == focus_config_of(self.manifest),
                Err(e) => self.tag() != FOCUSMERGE_V1@ && is_mismatch(e, FOCUSMERGE_V1@, *self),
            },
    {
        if !same(self.manifest.architecture.as_str(), FOCUSMERGE_V1) {
            return Err(self.mismatch(FOCUSMERGE_V1));
        }
        Ok(self.manifest.to_config())
    }

    /// The geometry to read the weights into as a batch fusion network.
    pub fn load_batch(&self) -> (r: Result<BatchMergeNetConfig, DiscoveryError>)
        ensures
            match r {
                Ok(cfg) => self.tag() == BATCHMERGE_V2@ && cfg == batch_config_of(self.manifest),
                Err(e) => self.tag() != BATCHMERGE_V2@ && is_mismatch(e, BATCHMERGE_V2@, *self),
            },
    {
        if !same(self.manifest.architecture.as_str(), BATCHMERGE_V2) {
            return Err(self.mismatch(BATCHMERGE_V2));
        }
        Ok(self.manifest.to_batch_config())
    }

    /// The geometry to read the weights into as a batch alignment network.
    pub fn load_align(&self) -> (r: Result<BatchAlignNetConfig, DiscoveryError>)
        ensures
            match r {
                Ok(cfg) => self.tag() == BATCHALIGN_V2@ && cfg == align_config_of(self.manifest),
                Err(e) => self.tag() != BATCHALIGN_V2@ && is_mismatch(e, BATCHALIGN_V2@, *self),
            },
    {
        if !same(self.manifest.architecture.as_str(), BATCHALIGN_V2) {
            return Err(self.mismatch(BATCHALIGN_V2));
        }
        Ok(self.manifest.to_align_config())
    }

    /// The geometry to read the weights into as a pairwise alignment network.
    pub fn load_fusion_align(&self) -> (r: Result<FusionAlignNetConfig, DiscoveryError>)
        ensures
            match r {
                Ok(cfg) => self.tag() == FUSIONALIGN_V1@ && cfg == fusion_align_config_of(
                    self.manifest,
                ),
                Err(e) => self.tag() != FUSIONALIGN_V1@ && is_mismatch(e, FUSIONALIGN_V1@, *self),
            },
    {
        if !same(self.manifest.architecture.as_str(), FUSIONALIGN_V1) {
            return Err(self.mismatch(FUSIONALIGN_V1));
        }
        Ok(self.manifest.to_fusion_align_config())
    }
}

/// The model name that a portable path stands for: the stem of a `.mpk` file.
pub open spec fn weights_name(path: Seq<char>) -> Option<Seq<char>> {
    if extension_of(file_name(path)) == Some("mpk"@) {
        stem_of(file_name(path))
    } else {
        None
    }
}

/// The model name of a directory entry: the stem of a `.mpk` file, `None` for
/// any other file.
pub fn model_stem(path: &str) -> (r: Option<String>)
    ensures
        exists|ext: Option<Seq<char>>| #[trigger]
            reads_extension(path@, ext) && (if ext == Some("mpk"@) {
                reads_stem(path@, opt_text(r))
            } else {
                r is None
            }),
        portable(path@) ==> opt_text(r) == weights_name(path@),
{
    let ext = extension(path);
    assert(reads_extension(path@, opt_text(ext)));
    match ext {
        Some(e) => {
            if same(e.as_str(), "mpk") {
                stem(path)
            } else {
                None
            }
        },
        None => None,
    }
}

/// A weights file found in a directory, with the manifest beside it if there
/// is one.
#[derive(Debug, PartialEq, Eq)]
pub struct FoundModel {
    pub name: String,
    pub weights_path: String,
    pub manifest: Option<ModelManifest>,
}

impl FoundModel {
    /// Whether the file is listed as a model: it has a manifest, and the
    /// manifest's tag is known.
    pub open spec fn is_listed(self) -> bool {
        match self.manifest {
            Some(m) => is_known_tag(m.architecture@),
            None => false,
        }
    }

    /// The model entry of a listed file.
    pub open spec fn entry(self) -> ModelEntry {
        ModelEntry {
            name: self.name,
            weights_path: self.weights_path,
            manifest: self.manifest->0,
        }
    }
}

/// The entries of the listed files, in the order found.
pub open spec fn listed_entries(found: Seq<FoundModel>) -> Seq<ModelEntry>
    decreases found.len(),
{
    if found.len() == 0 {
        Seq::empty()
    } else if found.last().is_listed() {
        listed_entries(found.drop_last()).push(found.last().entry())
    } else {
        listed_entries(found.drop_last())
    }
}

fn has_known_tag(m: &ModelManifest) -> (r: bool)
    ensures
        r == is_known_tag(m.architecture@),
{
    let tag = m.architecture.as_str();
    same(tag, FOCUSMERGE_V1) || same(tag, BATCHMERGE_V2) || same(tag, BATCHALIGN_V2) || same(
        tag,
        FUSIONALIGN_V1,
    )
}

/// The models of one directory: the weights files that have a manifest with a
/// known tag, sorted by name.
pub fn discover_models(found: Vec<FoundModel>) -> (r: Vec<ModelEntry>)
    ensures
        is_sorted_listing(listed_entries(found@), r@),
{
    let ghost all = found@;
    let mut entries: Vec<ModelEntry> = Vec::new();
    for item in it: found
        invariant
            it.seq() == all,
            entries@ == listed_entries(all.take(it.index() as int)),
    {
        proof {
            assert(all.take(it.index() + 1).drop_last() == all.take(it.index() as int));
            assert(all.take(it.index() + 1).last() == item);
        }
        match item.manifest {
            Some(manifest) => {
                if has_known_tag(&manifest) {
                    entries.push(
                        ModelEntry { name: item.name, weights_path: item.weights_path, manifest },
                    );
                }
            },
            None => {},
        }
    }
    assert(all.take(all.len() as int) == all);
    sort_by_name(entries)
}

/// Whether an entry of that name is among `entries`.
pub open spec fn name_taken(entries: Seq<ModelEntry>, name: Seq<char>) -> bool {
    exists|k: int| 0 <= k < entries.len() && (#[trigger] entries[k]).name@ == name
}

/// The entries without those whose name occurred earlier.
pub open spec fn first_of_each_name(entries: Seq<ModelEntry>) -> Seq<ModelEntry>
    decreases entries.len(),
{
    if entries.len() == 0 {
        Seq::empty()
    } else {
        let kept = first_of_each_name(entries.drop_last());
        if name_taken(kept, entries.last().name@) {
            kept
        } else {
            kept.push(entries.last())
        }
    }
}

/// All entries of the given lists, one list after the other.
pub open spec fn chained(lists: Seq<Vec<ModelEntry>>) -> Seq<ModelEntry>
    decreases lists.len(),
{
    if lists.len() == 0 {
        Seq::empty()
    } else {
        chained(lists.drop_last()) + lists.last()@
    }
}

fn holds_name(entries: &Vec<ModelEntry>, name: &str) -> (r: bool)
    ensures
        r == name_taken(entries@, name@),
{
    let mut i: usize = 0;
    while i < entries.len()
        invariant
            i <= entries@.len(),
            forall|k: int| 0 <= k < i ==> (#[trigger] entries@[k]).name@ != name@,
        decreases entries@.len() - i,
    {
        if same(entries[i].name.as_str(), name) {
            return true;
        }
        i = i + 1;
    }
    false
}

/// The models of several directories, in priority order: of each name the
/// first, sorted by name.
pub fn discover_default_models(lists: Vec<Vec<ModelEntry>>) -> (r: Vec<ModelEntry>)
    ensures
        is_sorted_listing(first_of_each_name(chained(lists@)), r@),
{
    let ghost all = lists@;
    let mut kept: Vec<ModelEntry> = Vec::new();
    for list in it: lists
        invariant
            it.seq() == all,
            kept@ == first_of_each_name(chained(all.take(it.index() as int))),
    {
        let ghost done = chained(all.take(it.index() as int));
        let ghost part = list@;
        proof {
            assert(all.take(it.index() + 1).drop_last() == all.take(it.index() as int));
            assert(all.take(it.index() + 1).last() == list);
            assert(done + part.take(0) == done);
        }
        for entry in jt: list
            invariant
                jt.seq() == part,
                kept@ == first_of_each_name(done + part.take(jt.index() as int)),
        {
            proof {
                let next = done + part.take(jt.index() + 1);
                assert(next.drop_last() == done + part.take(jt.index() as int));
                assert(next.last() == entry);
            }
            if !holds_name(&kept, entry.name.as_str()) {
                kept.push(entry);
            }
        }
        assert(part.take(part.len() as int) == part);
    }
    assert(all.take(all.len() as int) == all);
    sort_by_name(kept)
}

/// No two kept entries share a name.
pub proof fn law_names_are_unique(entries: Seq<ModelEntry>, i: int, j: int)
    requires
        0 <= i < j < first_of_each_name(entries).len(),
    ensures
        first_of_each_name(entries)[i].name@ != first_of_each_name(entries)[j].name@,
    decreases entries.len(),
{
    if entries.len() > 0 {
        let kept = first_of_each_name(entries.drop_last());
        if j < kept.len() {
            law_names_are_unique(entries.drop_last(), i, j);
        }
    }
}

/// The first entry of a name is the one that is kept: an entry whose name
/// occurs nowhere before it is among those kept.
pub proof fn law_earlier_entry_wins(entries: Seq<ModelEntry>, i: int)
    requires
        0 <= i < entries.len(),
        forall|k: int| 0 <= k < i ==> (#[trigger] entries[k]).name@ != entries[i].name@,
    ensures
        first_of_each_name(entries).contains(entries[i]),
    decreases entries.len(),
{
    let kept = first_of_each_name(entries.drop_last());
    if i < entries.len() - 1 {
        law_earlier_entry_wins(entries.drop_last(), i);
        assert(entries.drop_last()[i] == entries[i]);
        let k = choose|k: int| 0 <= k < kept.len() && kept[k] == entries[i];
        assert(first_of_each_name(entries)[k] == entries[i]);
    } else {
        if name_taken(kept, entries.last().name@) {
            let k = choose|k: int|
                0 <= k < kept.len() && (#[trigger] kept[k]).name@ == entries.last().name@;
            lemma_kept_occurs(entries.drop_last(), k);
            let m = choose|m: int|
                0 <= m < entries.len() - 1 && entries.drop_last()[m] == kept[k];
            assert(entries[m].name@ == entries[i].name@);
        }
        let all = first_of_each_name(entries);
        assert(all[all.len() - 1] == entries[i]);
    }
}

proof fn lemma_kept_occurs(entries: Seq<ModelEntry>, k: int)
    requires
        0 <= k < first_of_each_name(entries).len(),
    ensures
        exists|m: int|
            0 <= m < entries.len() && entries[m] == first_of_each_name(entries)[k],
    decreases entries.len(),
{
    if entries.len() > 0 {
        let kept = first_of_each_name(entries.drop_last());
        if k < kept.len() {
            lemma_kept_occurs(entries.drop_last(), k);
            let m = choose|m: int|
                0 <= m < entries.drop_last().len() && entries.drop_last()[m] == kept[k];
            assert(entries[m] == first_of_each_name(entries)[k]);
        } else {
            assert(entries[entries.len() - 1] == first_of_each_name(entries)[k]);
        }
    }
}

/// A tag names a network by its exact text, one of four.
pub proof fn law_tags_name_their_networks(tag: Seq<char>)
    ensures
        is_fusion_tag(tag) <==> tag == "focusmerge-v1"@ || tag == "batchmerge-v2"@,
        is_alignment_tag(tag) <==> tag == "batchalign-v2"@ || tag == "fusionalign-v1"@,
        is_known_tag(tag) <==> is_fusion_tag(tag) || is_alignment_tag(tag),
{
}

/// A manifest's own numbers come first, each in its own place, and the preset
/// of its size stands in for those that it leaves out.
pub proof fn law_manifest_overrides_preset(m: ModelManifest)
    ensures
        m.width matches Some(v) ==> focus_config_of(m).width == v && batch_config_of(m).width == v
            && align_config_of(m).width == v && fusion_align_config_of(m).width == v,
        m.depth matches Some(v) ==> focus_config_of(m).depth == v && batch_config_of(m).depth == v
            && align_config_of(m).depth == v && fusion_align_config_of(m).depth == v,
        m.norm_groups matches Some(v) ==> focus_config_of(m).norm_groups == v && batch_config_of(
            m,
        ).norm_groups == v && align_config_of(m).norm_groups == v && fusion_align_config_of(
            m,
        ).norm_groups == v,
        m.refine_scale matches Some(v) ==> focus_config_of(m).refine_scale == v && batch_config_of(
            m,
        ).refine_scale == v,
        m.corr_radius matches Some(v) ==> align_config_of(m).corr_radius == v
            && fusion_align_config_of(m).corr_radius == v,
        m.width is None ==> focus_config_of(m).width == focus_preset(m.size).width
            && batch_config_of(m).width == batch_preset(m.size).width && align_config_of(m).width
            == batch_align_preset(m.size).width && fusion_align_config_of(m).width
            == fusion_align_preset(m.size).width,
        m.depth is None ==> focus_config_of(m).depth == focus_preset(m.size).depth
            && batch_config_of(m).depth == batch_preset(m.size).depth && align_config_of(m).depth
            == batch_align_preset(m.size).depth && fusion_align_config_of(m).depth
            == fusion_align_preset(m.size).depth,
        m.norm_groups is None ==> focus_config_of(m).norm_groups == focus_preset(m.size).norm_groups
            && batch_config_of(m).norm_groups == batch_preset(m.size).norm_groups
            && align_config_of(m).norm_groups == batch_align_preset(m.size).norm_groups
            && fusion_align_config_of(m).norm_groups == fusion_align_preset(m.size).norm_groups,
        m.refine_scale is None ==> focus_config_of(m).refine_scale == focus_preset(
            m.size,
        ).refine_scale && batch_config_of(m).refine_scale == batch_preset(m.size).refine_scale,
        m.corr_radius is None ==> align_config_of(m).corr_radius == batch_align_preset(
            m.size,
        ).corr_radius && fusion_align_config_of(m).corr_radius == fusion_align_preset(
            m.size,
        ).corr_radius,
{
}

/// Every loader takes the networks of its own tag and refuses all others, and
/// the refusal names the tag that it takes, the one that it found, and the
/// weights file.
pub proof fn law_loaders_take_their_own_tag(
    entry: ModelEntry,
    a: Result<FocusMergeNetConfig, DiscoveryError>,
    b: Result<BatchMergeNetConfig, DiscoveryError>,
    c: Result<BatchAlignNetConfig, DiscoveryError>,
    d: Result<FusionAlignNetConfig, DiscoveryError>,
)
    requires
        call_ensures(ModelEntry::load, (&entry,), a),
        call_ensures(ModelEntry::load_batch, (&entry,), b),
        call_ensures(ModelEntry::load_align, (&entry,), c),
        call_ensures(ModelEntry::load_fusion_align, (&entry,), d),
    ensures
        a is Ok <==> entry.manifest.architecture@ == "focusmerge-v1"@,
        b is Ok <==> entry.manifest.architecture@ == "batchmerge-v2"@,
        c is Ok <==> entry.manifest.architecture@ == "batchalign-v2"@,
        d is Ok <==> entry.manifest.architecture@ == "fusionalign-v1"@,
        a matches Ok(cfg) ==> cfg == focus_config_of(entry.manifest),
        b matches Ok(cfg) ==> cfg == batch_config_of(entry.manifest),
        c matches Ok(cfg) ==> cfg == align_config_of(entry.manifest),
        d matches Ok(cfg) ==> cfg == fusion_align_config_of(entry.manifest),
        a matches Err(DiscoveryError::ArchitectureMismatch { expected, found, path }) ==> expected@
            == "focusmerge-v1"@ && found@ == entry.manifest.architecture@ && path@
            == entry.weights_path@,
        b matches Err(DiscoveryError::ArchitectureMismatch { expected, found, path }) ==> expected@
            == "batchmerge-v2"@ && found@ == entry.manifest.architecture@ && path@
            == entry.weights_path@,
        c matches Err(DiscoveryError::ArchitectureMismatch { expected, found, path }) ==> expected@
            == "batchalign-v2"@ && found@ == entry.manifest.architecture@ && path@
            == entry.weights_path@,
        d matches Err(DiscoveryError::ArchitectureMismatch { expected, found, path }) ==> expected@
            == "fusionalign-v1"@ && found@ == entry.manifest.architecture@ && path@
            == entry.weights_path@,
{
}

/// A directory's models are the weights files with a manifest of a known tag,
/// under the file's own name, path and manifest, and no others.
pub proof fn law_files_with_known_manifests_are_listed(found: Seq<FoundModel>, entry: ModelEntry)
    ensures
        listed_entries(found).contains(entry) <==> exists|i: int|
            0 <= i < found.len() && (#[trigger] found[i]).name == entry.name
                && found[i].weights_path == entry.weights_path && found[i].manifest == Some(
                entry.manifest,
            ) && is_known_tag(entry.manifest.architecture@),
        listed_entries(found).len() <= found.len(),
    decreases found.len(),
{
    if found.len() > 0 {
        let init = found.drop_last();
        let n = found.len() - 1;
        let before = listed_entries(init);
        let after = listed_entries(found);
        law_files_with_known_manifests_are_listed(init, entry);
        if before.contains(entry) {
            let i = choose|i: int|
                0 <= i < init.len() && (#[trigger] init[i]).name == entry.name
                    && init[i].weights_path == entry.weights_path && init[i].manifest == Some(
                    entry.manifest,
                ) && is_known_tag(entry.manifest.architecture@);
            assert(found[i] == init[i]);
            let at = choose|at: int| 0 <= at < before.len() && before[at] == entry;
            assert(after[at] == entry);
        }
        if found.last().is_listed() {
            assert(after[before.len() as int] == found[n].entry());
        }
        if after.contains(entry) && !before.contains(entry) {
            let at = choose|at: int| 0 <= at < after.len() && after[at] == entry;
            if at < before.len() {
                assert(before[at] == entry);
            }
            assert(found[n].name == entry.name);
        }
        if exists|i: int|
            0 <= i < found.len() && (#[trigger] found[i]).name == entry.name
                && found[i].weights_path == entry.weights_path && found[i].manifest == Some(
                entry.manifest,
            ) && is_known_tag(entry.manifest.architecture@) {
            let i = choose|i: int|
                0 <= i < found.len() && (#[trigger] found[i]).name == entry.name
                    && found[i].weights_path == entry.weights_path && found[i].manifest == Some(
                    entry.manifest,
                ) && is_known_tag(entry.manifest.architecture@);
            if i < n {
                assert(init[i].name == entry.name);
            } else {
                assert(found[n].entry() == entry);
            }
        }
    }
}

/// An entry that is kept is one of those given, and no entry before it has its
/// name.
pub proof fn law_only_first_entries_are_kept(entries: Seq<ModelEntry>, k: int)
    requires
        0 <= k < first_of_each_name(entries).len(),
    ensures
        exists|m: int|
            0 <= m < entries.len() && #[trigger] entries[m] == first_of_each_name(entries)[k]
                && forall|j: int| 0 <= j < m ==> (#[trigger] entries[j]).name@ != entries[m].name@,
    decreases entries.len(),
{
    let init = entries.drop_last();
    let kept = first_of_each_name(init);
    let n = entries.len() - 1;
    if k < kept.len() {
        law_only_first_entries_are_kept(init, k);
        let m = choose|m: int|
            0 <= m < init.len() && #[trigger] init[m] == kept[k] && forall|j: int|
                0 <= j < m ==> (#[trigger] init[j]).name@ != init[m].name@;
        assert(entries[m] == first_of_each_name(entries)[k]);
        assert forall|j: int| 0 <= j < m implies (#[trigger] entries[j]).name@ != entries[m].name@
            by {
            assert(init[j] == entries[j]);
        }
    } else {
        assert(entries[n] == first_of_each_name(entries)[k]);
        assert forall|j: int| 0 <= j < n implies (#[trigger] entries[j]).name@ != entries[n].name@
            by {
            assert(init[j] == entries[j]);
            lemma_every_name_is_kept(init, j);
        }
    }
}

proof fn lemma_every_name_is_kept(entries: Seq<ModelEntry>, j: int)
    requires
        0 <= j < entries.len(),
    ensures
        name_taken(first_of_each_name(entries), entries[j].name@),
    decreases entries.len(),
{
    let init = entries.drop_last();
    let kept = first_of_each_name(init);
    let all = first_of_each_name(entries);
    if j < init.len() {
        lemma_every_name_is_kept(init, j);
        let k = choose|k: int| 0 <= k < kept.len() && (#[trigger] kept[k]).name@ == init[j].name@;
        assert(all[k].name@ == entries[j].name@);
    } else if !name_taken(kept, entries.last().name@) {
        assert(all[all.len() - 1].name@ == entries[j].name@);
    }
}

/// The entries of several lists are those of the first, then those of the
/// second, and so on, each list in its own order.
pub proof fn law_lists_are_read_in_order(lists: Seq<Vec<ModelEntry>>, l: int, i: int)
    requires
        0 <= l < lists.len(),
        0 <= i < lists[l]@.len(),
    ensures
        ({
            let at = chained(lists.take(l)).len() + i;
            &&& at < chained(lists).len()
            &&& chained(lists)[at] == lists[l]@[i]
        }),
    decreases lists.len(),
{
    let init = lists.drop_last();
    if l < init.len() {
        law_lists_are_read_in_order(init, l, i);
        assert(init.take(l) =~= lists.take(l));
    } else {
        assert(lists.take(l) =~= init);
    }
}

/// What a directory's models look like to a picker: one entry for each weights
/// file that has a manifest of a known tag, and no others, by name.
pub proof fn law_discovered_models_are_the_listed_files(
    found: Vec<FoundModel>,
    r: Vec<ModelEntry>,
    entry: ModelEntry,
    k: int,
    l: int,
)
    requires
        call_ensures(discover_models, (found,), r),
    ensures
        r@.contains(entry) <==> exists|i: int|
            0 <= i < found@.len() && (#[trigger] found@[i]).name == entry.name
                && found@[i].weights_path == entry.weights_path && found@[i].manifest == Some(
                entry.manifest,
            ) && is_known_tag(entry.manifest.architecture@),
        0 <= k < l < r@.len() ==> !text_before(r@[l].name@, r@[k].name@),
{
    let listed = listed_entries(found@);
    law_files_with_known_manifests_are_listed(found@, entry);
    lemma_listing_same_items(listed, r@, entry);
    if 0 <= k < l < r@.len() {
        law_listing_is_ordered(listed, r@, k, l);
    }
}

proof fn lemma_listing_same_items(items: Seq<ModelEntry>, sorted: Seq<ModelEntry>, entry: ModelEntry)
    requires
        is_sorted_listing(items, sorted),
    ensures
        sorted.contains(entry) <==> items.contains(entry),
{
    if items.contains(entry) {
        let i = choose|i: int| 0 <= i < items.len() && items[i] == entry;
        law_listing_holds_all(items, sorted, i);
    }
    if sorted.contains(entry) {
        let k = choose|k: int| 0 <= k < sorted.len() && sorted[k] == entry;
        law_listing_adds_nothing(items, sorted, k);
    }
}

/// Whether no entry before number `m` has its name.
pub open spec fn leads_its_name(entries: Seq<ModelEntry>, m: int) -> bool {
    forall|j: int| 0 <= j < m ==> (#[trigger] entries[j]).name@ != entries[m].name@
}

proof fn lemma_kept_iff_first(entries: Seq<ModelEntry>, entry: ModelEntry)
    ensures
        first_of_each_name(entries).contains(entry) <==> exists|m: int|
            0 <= m < entries.len() && entries[m] == entry && #[trigger] leads_its_name(entries, m),
{
    let kept = first_of_each_name(entries);
    if kept.contains(entry) {
        let i = choose|i: int| 0 <= i < kept.len() && kept[i] == entry;
        law_only_first_entries_are_kept(entries, i);
        let m = choose|m: int|
            0 <= m < entries.len() && #[trigger] entries[m] == kept[i] && forall|j: int|
                0 <= j < m ==> (#[trigger] entries[j]).name@ != entries[m].name@;
        assert(leads_its_name(entries, m));
    }
    if exists|m: int|
        0 <= m < entries.len() && entries[m] == entry && #[trigger] leads_its_name(entries, m) {
        let m = choose|m: int|
            0 <= m < entries.len() && entries[m] == entry && #[trigger] leads_its_name(entries, m);
        law_earlier_entry_wins(entries, m);
    }
}

/// What several directories' models look like to a picker, the directories in
/// priority order: the first entry of each name, each name once, by name.
pub proof fn law_first_directory_wins(
    lists: Vec<Vec<ModelEntry>>,
    r: Vec<ModelEntry>,
    entry: ModelEntry,
    k: int,
    l: int,
)
    requires
        call_ensures(discover_default_models, (lists,), r),
    ensures
        r@.contains(entry) <==> exists|m: int|
            0 <= m < chained(lists@).len() && chained(lists@)[m] == entry
                && #[trigger] leads_its_name(chained(lists@), m),
        0 <= k < l < r@.len() ==> !text_before(r@[l].name@, r@[k].name@),
{
    let kept = first_of_each_name(chained(lists@));
    lemma_listing_same_items(kept, r@, entry);
    lemma_kept_iff_first(chained(lists@), entry);
    if 0 <= k < l < r@.len() {
        law_listing_is_ordered(kept, r@, k, l);
    }
}

} // verus!
