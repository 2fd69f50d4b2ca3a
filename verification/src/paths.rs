//! File names: extensions, stems, and listing order.

use vstd::prelude::*;
use crate::text::{
    comes_before, lemma_text_irreflexive, lemma_text_total, lemma_text_transitive, lower,
    text_before,
};

verus! {

/// Where the part of `path` after its last slash starts.
pub open spec fn name_start(path: Seq<char>) -> int
    decreases path.len(),
{
    if path.len() == 0 {
        0
    } else if path.last() == '/' {
        path.len() as int
    } else {
        name_start(path.drop_last())
    }
}

/// The part of `path` after its last slash.
pub open spec fn file_name(path: Seq<char>) -> Seq<char> {
    path.skip(name_start(path))
}

/// Paths that every platform splits alike, at their slashes: no backslash, and
/// no drive or share prefix.
pub open spec fn splits_alike(path: Seq<char>) -> bool {
    &&& !path.contains('\\')
    &&& !(path.len() >= 2 && path[1] == ':')
    &&& !(path.len() >= 2 && path[0] == '/' && path[1] == '/')
}

/// Paths that every platform reads alike: they split alike, and their last
/// component is neither empty nor the current directory.
pub open spec fn portable(path: Seq<char>) -> bool {
    &&& splits_alike(path)
    &&& file_name(path).len() > 0
    &&& file_name(path) != seq!['.']
}

/// Index of the last dot of `name`, or -1.
pub open spec fn last_dot(name: Seq<char>) -> int
    decreases name.len(),
{
    if name.len() == 0 {
        -1
    } else if name.last() == '.' {
        name.len() - 1
    } else {
        last_dot(name.drop_last())
    }
}

/// Extension of a file name: what follows its last dot, unless that dot is its
/// first character or the name is the parent directory.
pub open spec fn extension_of(name: Seq<char>) -> Option<Seq<char>> {
    if name == seq!['.', '.'] || last_dot(name) <= 0 {
        None
    } else {
        Some(name.skip(last_dot(name) + 1))
    }
}

/// Stem of a file name: what precedes its extension's dot, or the whole name
/// where it has no extension. The parent directory has none.
pub open spec fn stem_of(name: Seq<char>) -> Option<Seq<char>> {
    if name == seq!['.', '.'] {
        None
    } else if last_dot(name) <= 0 {
        Some(name)
    } else {
        Some(name.take(last_dot(name)))
    }
}

/// The text inside an optional string.
pub open spec fn opt_text(s: Option<String>) -> Option<Seq<char>> {
    match s {
        Some(t) => Some(t@),
        None => None,
    }
}

/// `std::path::Path::extension` of the standard library, on a path given as
/// text: the extension of the path's final component. An extension holds no
/// dot. How a path splits into components depends on the platform; for a
/// portable path the contract says what comes back, for any other it says
/// nothing more.
#[verifier::external_body]
fn path_extension(path: &str) -> (r: Option<String>)
    ensures
        portable(path@) ==> opt_text(r) == extension_of(file_name(path@)),
        r matches Some(e) ==> !e@.contains('.'),
{
    std::path::Path::new(path).extension().and_then(|e| e.to_str()).map(|e| e.to_owned())
}

/// `std::path::Path::file_stem` of the standard library, on a path given as
/// text: the final component without its extension. How a path splits into
/// components depends on the platform; for a portable path the contract says
/// what comes back, for any other it says nothing.
#[verifier::external_body]
fn path_stem(path: &str) -> (r: Option<String>)
    ensures
        portable(path@) ==> opt_text(r) == stem_of(file_name(path@)),
{
    std::path::Path::new(path).file_stem().and_then(|s| s.to_str()).map(|s| s.to_owned())
}

/// The parts of a path between its slashes: repeated and trailing slashes do
/// not count, nor does the current directory but as the very first part.
pub open spec fn components(path: Seq<char>) -> Seq<Seq<char>>
    decreases path.len(),
{
    let start = name_start(path);
    let name = path.skip(start);
    let before = if 0 < start <= path.len() {
        components(path.take(start - 1))
    } else {
        Seq::empty()
    };
    if name.len() == 0 || (name == seq!['.'] && start > 0) {
        before
    } else {
        before.push(name)
    }
}

/// What a path stands for, however it is spelled: whether it starts at the
/// root, and its components.
pub open spec fn path_key(path: Seq<char>) -> (bool, Seq<Seq<char>>) {
    (path.len() > 0 && path[0] == '/', components(path))
}

/// `==` of `std::path::Path` of the standard library, on paths given as text:
/// whether both start at the root or neither does, and their components are
/// the same. A path equals itself. How a path splits into components depends
/// on the platform; for other paths than those that split alike the contract
/// says nothing more.
#[verifier::external_body]
fn paths_equal(a: &str, b: &str) -> (r: bool)
    ensures
        splits_alike(a@) && splits_alike(b@) ==> r == (path_key(a@) == path_key(b@)),
        a@ == b@ ==> r,
{
    std::path::Path::new(a) == std::path::Path::new(b)
}

/// Whether the platform may answer `same` where it is asked whether two paths
/// are equal.
pub closed spec fn reads_equal(a: Seq<char>, b: Seq<char>, same: bool) -> bool {
    exists|p: &str, q: &str|
        p@ == a && q@ == b && #[trigger] call_ensures(paths_equal, (p, q), same)
}

/// Whether two paths are equal.
pub fn same_path(a: &str, b: &str) -> (r: bool)
    ensures
        reads_equal(a@, b@, r),
        splits_alike(a@) && splits_alike(b@) ==> r == (path_key(a@) == path_key(b@)),
        a@ == b@ ==> r,
{
    paths_equal(a, b)
}

/// A file's name without any directory: nothing in it is a separator or ends a
/// drive prefix.
pub open spec fn is_plain_name(name: Seq<char>) -> bool {
    &&& name.len() > 0
    &&& !name.contains('/')
    &&& !name.contains('\\')
    &&& !name.contains(':')
}

/// Whether `joined` is the file `name` in a directory that every platform
/// splits alike. The separator between them is the platform's.
pub open spec fn is_joined(dir: Seq<char>, name: Seq<char>, joined: Seq<char>) -> bool {
    if dir.len() == 0 {
        joined == name
    } else if dir.last() == '/' {
        joined == dir + name
    } else {
        joined == dir + seq!['/'] + name || joined == dir + seq!['\\'] + name
    }
}

/// `std::path::Path::join` of the standard library, on a directory and a file
/// name given as text: the name appended to the directory, with the platform's
/// separator where the directory does not end in one. For a directory with a
/// backslash or a prefix the contract says nothing.
#[verifier::external_body]
fn path_join(dir: &str, name: &str) -> (r: String)
    requires
        is_plain_name(name@),
    ensures
        splits_alike(dir@) ==> is_joined(dir@, name@, r@),
{
    std::path::Path::new(dir).join(name).into_os_string().into_string().unwrap()
}

/// Whether the platform may join a directory and a file name to `joined`.
pub closed spec fn joins(dir: Seq<char>, name: Seq<char>, joined: Seq<char>) -> bool {
    exists|d: &str, n: &str, r: String|
        d@ == dir && n@ == name && r@ == joined && #[trigger] call_ensures(path_join, (d, n), r)
}

/// The path of a file in a directory.
pub fn join(dir: &str, name: &str) -> (r: String)
    requires
        is_plain_name(name@),
    ensures
        joins(dir@, name@, r@),
        splits_alike(dir@) ==> is_joined(dir@, name@, r@),
{
    path_join(dir, name)
}

/// Whether the platform may read `ext` as the extension of `path`.
pub closed spec fn reads_extension(path: Seq<char>, ext: Option<Seq<char>>) -> bool {
    exists|p: &str, e: Option<String>|
        p@ == path && opt_text(e) == ext && #[trigger] call_ensures(path_extension, (p,), e)
}

/// Whether the platform may read `stem` as the stem of `path`.
pub closed spec fn reads_stem(path: Seq<char>, stem: Option<Seq<char>>) -> bool {
    exists|p: &str, s: Option<String>|
        p@ == path && opt_text(s) == stem && #[trigger] call_ensures(path_stem, (p,), s)
}

/// An extension in lower case.
pub open spec fn folded(ext: Option<Seq<char>>) -> Option<Seq<char>> {
    match ext {
        Some(e) => Some(lower(e)),
        None => None,
    }
}

/// Whether the platform may read `ext` as the extension of `path` in lower
/// case.
pub open spec fn reads_folded(path: Seq<char>, ext: Option<Seq<char>>) -> bool {
    exists|e: Option<Seq<char>>| #[trigger] reads_extension(path, e) && ext == folded(e)
}

/// Whether the platform may read these lower-case extensions from these paths.
pub open spec fn reads_all(paths: Seq<Seq<char>>, exts: Seq<Option<Seq<char>>>) -> bool {
    &&& exts.len() == paths.len()
    &&& forall|i: int| 0 <= i < paths.len() ==> reads_folded(#[trigger] paths[i], exts[i])
}

/// The lower-case extensions of portable paths.
pub open spec fn plain_extensions(paths: Seq<Seq<char>>) -> Seq<Option<Seq<char>>> {
    Seq::new(paths.len(), |i: int| folded(extension_of(file_name(paths[i]))))
}

/// Whether every path reads alike on every platform.
pub open spec fn all_portable(paths: Seq<Seq<char>>) -> bool {
    forall|i: int| 0 <= i < paths.len() ==> portable(#[trigger] paths[i])
}

/// A portable path has the same extension and the same stem on every platform.
pub proof fn law_portable_path_reads_alike(path: Seq<char>, part: Option<Seq<char>>)
    requires
        portable(path),
    ensures
        reads_extension(path, part) ==> part == extension_of(file_name(path)),
        reads_folded(path, part) ==> part == folded(extension_of(file_name(path))),
        reads_stem(path, part) ==> part == stem_of(file_name(path)),
{
    if reads_folded(path, part) {
        let e = choose|e: Option<Seq<char>>| #[trigger]
            reads_extension(path, e) && part == folded(e);
        assert(e == extension_of(file_name(path)));
    }
}

/// Portable paths have the same lower-case extensions on every platform.
pub proof fn law_portable_paths_read_alike(paths: Seq<Seq<char>>, exts: Seq<Option<Seq<char>>>)
    requires
        all_portable(paths),
        reads_all(paths, exts),
    ensures
        exts == plain_extensions(paths),
{
    assert forall|i: int| 0 <= i < paths.len() implies exts[i] == plain_extensions(paths)[i] by {
        assert(portable(paths[i]));
        law_portable_path_reads_alike(paths[i], exts[i]);
    }
    assert(exts =~= plain_extensions(paths));
}

/// The lower-case extension of a path.
pub fn folded_extension(path: &str) -> (r: Option<String>)
    ensures
        reads_folded(path@, opt_text(r)),
        portable(path@) ==> opt_text(r) == folded(extension_of(file_name(path@))),
{
    let ext = path_extension(path);
    assert(reads_extension(path@, opt_text(ext)));
    match ext {
        Some(e) => Some(e.as_str().to_ascii_lowercase()),
        None => None,
    }
}

/// The extension of a path, as written.
pub fn extension(path: &str) -> (r: Option<String>)
    ensures
        reads_extension(path@, opt_text(r)),
        portable(path@) ==> opt_text(r) == extension_of(file_name(path@)),
{
    path_extension(path)
}

/// The stem of a path's file name.
pub fn stem(path: &str) -> (r: Option<String>)
    ensures
        reads_stem(path@, opt_text(r)),
        portable(path@) ==> opt_text(r) == stem_of(file_name(path@)),
{
    path_stem(path)
}

/// Things that are listed under a name.
pub trait Named: Sized {
    /// The name, as text.
    spec fn name_text(self) -> Seq<char>;

    /// Whether this name comes before the other.
    fn name_before(&self, other: &Self) -> (r: bool)
        ensures
            r == text_before(self.name_text(), other.name_text()),
    ;
}

impl Named for String {
    open spec fn name_text(self) -> Seq<char> {
        self@
    }

    fn name_before(&self, other: &Self) -> (r: bool) {
        comes_before(self.as_str(), other.as_str())
    }
}

/// Whether `order` lists the indices of `items` by name, items of equal name
/// in their given order. There is exactly one such listing, and it holds each
/// index once.
pub open spec fn is_listing<T: Named>(items: Seq<T>, order: Seq<int>) -> bool {
    &&& order.len() == items.len()
    &&& forall|k: int| 0 <= k < order.len() ==> 0 <= #[trigger] order[k] < items.len()
    &&& forall|k: int, l: int|
        #![trigger order[k], order[l]]
        0 <= k < l < order.len() ==> listed_before(items, order[k], order[l])
}

/// Whether item `i` is listed before item `j`: by name, then by position.
pub open spec fn listed_before<T: Named>(items: Seq<T>, i: int, j: int) -> bool {
    ||| text_before(items[i].name_text(), items[j].name_text())
    ||| items[i].name_text() == items[j].name_text() && i < j
}

/// Whether `sorted` is `items` in listing order.
pub open spec fn is_sorted_listing<T: Named>(items: Seq<T>, sorted: Seq<T>) -> bool {
    exists|order: Seq<int>|
        #[trigger] is_listing(items, order) && sorted == order.map_values(|k: int| items[k])
}

/// Sorts items by name; items of equal name keep their order.
pub fn sort_by_name<T: Named>(items: Vec<T>) -> (sorted: Vec<T>)
    ensures
        is_sorted_listing(items@, sorted@),
{
    let ghost all = items@;
    let mut out: Vec<T> = Vec::new();
    let ghost mut order: Seq<int> = Seq::empty();
    let ghost mut done: int = 0;
    for item in it: items
        invariant
            it.seq() == all,
            done == it.index(),
            is_listing(all.take(done), order),
            out@ == order.map_values(|k: int| all[k]),
    {
        let mut p: usize = 0;
        while p < out.len() && !item.name_before(&out[p])
            invariant
                p <= out@.len(),
                forall|k: int|
                    0 <= k < p ==> !text_before(
                        item.name_text(),
                        (#[trigger] out@[k]).name_text(),
                    ),
            decreases out@.len() - p,
        {
            p = p + 1;
        }
        proof {
            assert forall|k: int| 0 <= k < p implies !text_before(
                all[done].name_text(),
                all[#[trigger] order[k]].name_text(),
            ) by {
                assert(out@[k] == all[order[k]]);
            }
            lemma_insert_keeps_listing(all, done, order, p as int);
            let next = order.insert(p as int, done);
            assert(out@.insert(p as int, item) =~= next.map_values(|k: int| all[k]));
            order = next;
            done = done + 1;
        }
        out.insert(p, item);
    }
    proof {
        assert(all.take(all.len() as int) == all);
    }
    out
}

proof fn lemma_insert_keeps_listing<T: Named>(all: Seq<T>, done: int, order: Seq<int>, p: int)
    requires
        0 <= done < all.len(),
        is_listing(all.take(done), order),
        0 <= p <= order.len(),
        forall|k: int|
            0 <= k < p ==> !text_before(
                all[done].name_text(),
                all[#[trigger] order[k]].name_text(),
            ),
        p < order.len() ==> text_before(all[done].name_text(), all[order[p]].name_text()),
    ensures
        is_listing(all.take(done + 1), order.insert(p, done)),
{
    let before = all.take(done);
    let after = all.take(done + 1);
    let next = order.insert(p, done);
    let name = all[done].name_text();
    assert forall|k: int| 0 <= k < next.len() implies 0 <= #[trigger] next[k] < after.len() by {
        if k < p {
            assert(next[k] == order[k]);
        } else if k > p {
            assert(next[k] == order[k - 1]);
        }
    }
    assert forall|k: int, l: int|
        #![trigger next[k], next[l]]
        0 <= k < l < next.len() implies listed_before(after, next[k], next[l]) by {
        if k == p {
            let o = order[l - 1];
            assert(next[l] == o);
            assert(text_before(name, all[order[p]].name_text()));
            if l - 1 > p {
                assert(listed_before(before, order[p], order[l - 1]));
                if text_before(all[order[p]].name_text(), all[o].name_text()) {
                    lemma_text_transitive(name, all[order[p]].name_text(), all[o].name_text());
                }
            }
        } else if l == p {
            let o = order[k];
            assert(next[k] == o);
            lemma_text_total(name, all[o].name_text());
        } else {
            let ko = if k < p { k } else { k - 1 };
            let lo = if l < p { l } else { l - 1 };
            assert(next[k] == order[ko]);
            assert(next[l] == order[lo]);
            assert(listed_before(before, order[ko], order[lo]));
        }
    }
}

/// In a listing, names never go back: an earlier item's name comes before a
/// later one's, or equals it.
pub proof fn law_listing_is_ordered<T: Named>(items: Seq<T>, sorted: Seq<T>, k: int, l: int)
    requires
        is_sorted_listing(items, sorted),
        0 <= k < l < sorted.len(),
    ensures
        !text_before(sorted[l].name_text(), sorted[k].name_text()),
{
    let order = choose|order: Seq<int>|
        #[trigger] is_listing(items, order) && sorted == order.map_values(|k: int| items[k]);
    assert(listed_before(items, order[k], order[l]));
    let a = sorted[k].name_text();
    let b = sorted[l].name_text();
    if text_before(b, a) {
        if text_before(a, b) {
            lemma_text_transitive(a, b, a);
        }
        lemma_text_irreflexive(a);
    }
}

/// A listing holds every item: each item of the input appears in it.
pub proof fn law_listing_holds_all<T: Named>(items: Seq<T>, sorted: Seq<T>, i: int)
    requires
        is_sorted_listing(items, sorted),
        0 <= i < items.len(),
    ensures
        sorted.len() == items.len(),
        sorted.contains(items[i]),
{
    let order = choose|order: Seq<int>|
        #[trigger] is_listing(items, order) && sorted == order.map_values(|k: int| items[k]);
    assert(order.no_duplicates()) by {
        assert forall|k: int, l: int|
            0 <= k < order.len() && 0 <= l < order.len() && k != l implies order[k] != order[l] by {
            let (x, y) = if k < l { (k, l) } else { (l, k) };
            assert(listed_before(items, order[x], order[y]));
            lemma_text_irreflexive(items[order[x]].name_text());
        }
    }
    lemma_full_range(order, items.len() as int, i);
    let k = choose|k: int| 0 <= k < order.len() && order[k] == i;
    assert(sorted[k] == items[i]);
}

/// A sequence of `n` different indices below `n` holds each of them.
proof fn lemma_full_range(order: Seq<int>, n: int, i: int)
    requires
        order.len() == n,
        order.no_duplicates(),
        forall|k: int| 0 <= k < order.len() ==> 0 <= #[trigger] order[k] < n,
        0 <= i < n,
    ensures
        exists|k: int| 0 <= k < order.len() && order[k] == i,
{
    let range = vstd::set_lib::set_int_range(0, n);
    vstd::set_lib::lemma_int_range(0, n);
    let held = order.to_set();
    order.unique_seq_to_set();
    assert(held.subset_of(range));
    vstd::set_lib::lemma_subset_equality(held, range);
    assert(held.contains(i));
}

/// A listing holds nothing but the items, and items of equal name stay in
/// their given order.
pub proof fn law_listing_is_stable<T: Named>(items: Seq<T>, sorted: Seq<T>, i: int, j: int)
    requires
        is_sorted_listing(items, sorted),
        0 <= i < j < items.len(),
        items[i].name_text() == items[j].name_text(),
    ensures
        exists|k: int, l: int|
            0 <= k < l < sorted.len() && #[trigger] sorted[k] == items[i] && #[trigger] sorted[l]
                == items[j],
{
    let order = choose|order: Seq<int>|
        #[trigger] is_listing(items, order) && sorted == order.map_values(|k: int| items[k]);
    assert(order.no_duplicates()) by {
        assert forall|k: int, l: int|
            0 <= k < order.len() && 0 <= l < order.len() && k != l implies order[k] != order[l] by {
            let (x, y) = if k < l { (k, l) } else { (l, k) };
            assert(listed_before(items, order[x], order[y]));
            lemma_text_irreflexive(items[order[x]].name_text());
        }
    }
    lemma_full_range(order, items.len() as int, i);
    lemma_full_range(order, items.len() as int, j);
    let k = choose|k: int| 0 <= k < order.len() && order[k] == i;
    let l = choose|l: int| 0 <= l < order.len() && order[l] == j;
    if l < k {
        assert(listed_before(items, order[l], order[k]));
        lemma_text_irreflexive(items[i].name_text());
    }
    assert(sorted[k] == items[i] && sorted[l] == items[j]);
}

/// A listing holds as many items as were given, and each of them is one of
/// these.
pub proof fn law_listing_adds_nothing<T: Named>(items: Seq<T>, sorted: Seq<T>, k: int)
    requires
        is_sorted_listing(items, sorted),
    ensures
        sorted.len() == items.len(),
        0 <= k < sorted.len() ==> items.contains(sorted[k]),
{
    let order = choose|order: Seq<int>|
        #[trigger] is_listing(items, order) && sorted == order.map_values(|k: int| items[k]);
    if 0 <= k < sorted.len() {
        assert(items[order[k]] == sorted[k]);
    }
}

} // verus!
