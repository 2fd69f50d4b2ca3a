//! Which files of a directory are stacked.

use vstd::prelude::*;
use crate::paths::{
    all_portable, folded_extension, is_sorted_listing, law_portable_paths_read_alike, opt_text,
    plain_extensions, reads_all, reads_folded, sort_by_name,
};
use crate::text::same;

verus! {

/// An entry of a directory: its path, whether it is a file, and whether this
/// build decodes its extension as a RAW format.
#[derive(Debug, PartialEq, Eq)]
pub struct DirItem {
    pub path: String,
    pub is_file: bool,
    pub is_raw: bool,
}

/// Whether a lower-case extension is one of the standard image formats.
pub open spec fn is_standard_extension(ext: Seq<char>) -> bool {
    ext == "png"@ || ext == "jpg"@ || ext == "jpeg"@ || ext == "tif"@ || ext == "tiff"@
}

/// Whether a directory entry with this lower-case extension is stacked.
pub open spec fn is_stackable(entry: DirItem, ext: Option<Seq<char>>) -> bool {
    match ext {
        Some(e) => entry.is_file && (is_standard_extension(e) || entry.is_raw),
        None => false,
    }
}

/// Whether a file with this lower-case extension is stacked.
pub fn stacks_extension(ext: &Option<String>, is_file: bool, is_raw: bool) -> (r: bool)
    ensures
        r == (match *ext {
            Some(e) => is_file && (is_standard_extension(e@) || is_raw),
            None => false,
        }),
{
    match ext {
        Some(e) => {
            let standard = same(e.as_str(), "png") || same(e.as_str(), "jpg") || same(
                e.as_str(),
                "jpeg",
            ) || same(e.as_str(), "tif") || same(e.as_str(), "tiff");
            is_file && (standard || is_raw)
        },
        None => false,
    }
}

/// The paths of the entries that are stacked, in the order given. `exts[i]` is
/// the lower-case extension of entry `i`.
pub open spec fn stackable_paths(entries: Seq<DirItem>, exts: Seq<Option<Seq<char>>>) -> Seq<String>
    decreases entries.len(),
{
    if entries.len() == 0 {
        Seq::empty()
    } else {
        let before = stackable_paths(entries.drop_last(), exts);
        if is_stackable(entries.last(), exts[entries.len() - 1]) {
            before.push(entries.last().path)
        } else {
            before
        }
    }
}

/// The paths of directory entries.
pub open spec fn entry_paths(entries: Seq<DirItem>) -> Seq<Seq<char>> {
    Seq::new(entries.len(), |i: int| entries[i].path@)
}

proof fn lemma_stackable_prefix(
    entries: Seq<DirItem>,
    a: Seq<Option<Seq<char>>>,
    b: Seq<Option<Seq<char>>>,
)
    requires
        forall|i: int| 0 <= i < entries.len() ==> a[i] == b[i],
    ensures
        stackable_paths(entries, a) == stackable_paths(entries, b),
    decreases entries.len(),
{
    if entries.len() > 0 {
        lemma_stackable_prefix(entries.drop_last(), a, b);
    }
}

/// A directory without images.
#[derive(Debug, PartialEq, Eq)]
pub struct NoImages {
    pub dir: String,
}

impl NoImages {
    /// The message shown to the user.
    pub fn message(&self) -> (r: String)
        ensures
            r@ == "no images found in '"@ + self.dir@ + "'"@,
    {
        let mut s = "no images found in '".to_owned();
        s.append(self.dir.as_str());
        s.append("'");
        s
    }
}

/// The images of a directory, sorted by path: standard formats and the RAW
/// formats of this build. A directory without any is refused.
pub fn collect_image_paths(dir: &str, entries: Vec<DirItem>) -> (r: Result<Vec<String>, NoImages>)
    ensures
        exists|exts: Seq<Option<Seq<char>>>| #[trigger]
            reads_all(entry_paths(entries@), exts) && match r {
                Ok(paths) => paths@.len() > 0 && is_sorted_listing(
                    stackable_paths(entries@, exts),
                    paths@,
                ),
                Err(e) => e.dir@ == dir@ && stackable_paths(entries@, exts).len() == 0,
            },
        all_portable(entry_paths(entries@)) ==> ({
            let plain = plain_extensions(entry_paths(entries@));
            match r {
                Ok(paths) => is_sorted_listing(stackable_paths(entries@, plain), paths@),
                Err(_) => stackable_paths(entries@, plain).len() == 0,
            }
        }),
{
    let ghost all = entries@;
    let ghost mut exts: Seq<Option<Seq<char>>> = Seq::empty();
    let mut kept: Vec<String> = Vec::new();
    for entry in it: entries
        invariant
            it.seq() == all,
            exts.len() == it.index(),
            reads_all(entry_paths(all).take(it.index() as int), exts),
            kept@ == stackable_paths(all.take(it.index() as int), exts),
    {
        let ext = folded_extension(entry.path.as_str());
        proof {
            let i = it.index() as int;
            let next = exts.push(opt_text(ext));
            assert(all.take(i + 1).drop_last() == all.take(i));
            assert(all.take(i + 1).last() == entry);
            lemma_stackable_prefix(all.take(i), exts, next);
            let paths = entry_paths(all).take(i + 1);
            assert forall|k: int| 0 <= k < paths.len() implies reads_folded(
                #[trigger] paths[k],
                next[k],
            ) by {
                if k < i {
                    assert(entry_paths(all).take(i)[k] == paths[k]);
                }
            }
            exts = next;
        }
        if stacks_extension(&ext, entry.is_file, entry.is_raw) {
            kept.push(entry.path);
        }
    }
    proof {
        assert(all.take(all.len() as int) == all);
        assert(entry_paths(all).take(all.len() as int) == entry_paths(all));
        assert(reads_all(entry_paths(all), exts));
        if all_portable(entry_paths(all)) {
            law_portable_paths_read_alike(entry_paths(all), exts);
        }
    }
    if kept.len() == 0 {
        return Err(NoImages { dir: dir.to_owned() });
    }
    Ok(sort_by_name(kept))
}

/// The files that are stacked are the images of the directory and no others: a
/// file of a standard format by its lower-case extension, or of a RAW format of
/// this build. A file without an extension is none.
pub proof fn law_stacked_files_are_images(
    entries: Seq<DirItem>,
    exts: Seq<Option<Seq<char>>>,
    path: String,
)
    ensures
        stackable_paths(entries, exts).contains(path) <==> exists|i: int|
            0 <= i < entries.len() && (#[trigger] entries[i]).path == path && entries[i].is_file
                && exts[i] is Some && (entries[i].is_raw || exts[i] == Some("png"@) || exts[i]
                == Some("jpg"@) || exts[i] == Some("jpeg"@) || exts[i] == Some("tif"@) || exts[i]
                == Some("tiff"@)),
        stackable_paths(entries, exts).len() <= entries.len(),
    decreases entries.len(),
{
    if entries.len() > 0 {
        let init = entries.drop_last();
        let n = entries.len() - 1;
        let before = stackable_paths(init, exts);
        let after = stackable_paths(entries, exts);
        law_stacked_files_are_images(init, exts, path);
        if before.contains(path) {
            let i = choose|i: int|
                0 <= i < init.len() && (#[trigger] init[i]).path == path && is_stackable(
                    init[i],
                    exts[i],
                );
            assert(entries[i] == init[i]);
            let at = choose|at: int| 0 <= at < before.len() && before[at] == path;
            assert(after[at] == path);
        }
        if is_stackable(entries[n], exts[n]) {
            assert(after[before.len() as int] == entries[n].path);
        }
        if after.contains(path) && !before.contains(path) {
            let at = choose|at: int| 0 <= at < after.len() && after[at] == path;
            if at < before.len() {
                assert(before[at] == path);
            }
            assert(entries[n].path == path);
        }
        if exists|i: int|
            0 <= i < entries.len() && (#[trigger] entries[i]).path == path && is_stackable(
                entries[i],
                exts[i],
            ) {
            let i = choose|i: int|
                0 <= i < entries.len() && (#[trigger] entries[i]).path == path && is_stackable(
                    entries[i],
                    exts[i],
                );
            if i < n {
                assert(init[i].path == path);
            }
        }
    }
}

} // verus!
