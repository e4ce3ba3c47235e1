//! The script files under a content's script root.
//!
//! A source tree keeps its files sorted by path, so that a file is found by
//! binary search and two scans of the same root are compared by one merge.
//! The walk over the file system is the caller's: it hands the tree what it
//! found.

pub mod order;

use vstd::prelude::*;
use crate::file_error::{FileError, IoError};
use crate::providers::document_ops::{has_extension, path_extension, script_extension};
use crate::paths::{AbsPath, PathBuf, PathBufView, PathComponent, PathComponentView, is_path_prefix};
use order::{components_lt, lemma_path_lt_common_prefix, lemma_path_lt_irreflexive, lemma_path_lt_total, lemma_path_lt_transitive, path_lt, strs};

verus! {

/// When a file was last modified: seconds and nanoseconds, compared in that
/// order.
#[derive(Clone, Copy, Debug, PartialEq, Eq, Structural)]
pub struct Timestamp {
    pub seconds: i64,
    pub nanos: u32,
}

pub open spec fn ts_lt(a: Timestamp, b: Timestamp) -> bool {
    a.seconds < b.seconds || (a.seconds == b.seconds && a.nanos < b.nanos)
}

impl Timestamp {
    /// Whether `self` is earlier than `other`.
    pub fn lt(&self, other: &Timestamp) -> (r: bool)
        ensures
            r == ts_lt(*self, *other),
    {
        self.seconds < other.seconds || (self.seconds == other.seconds && self.nanos < other.nanos)
    }
}

/// The path of a file in a source tree: absolute, and below the tree's
/// script root.
pub struct SourceTreePath {
    script_root: AbsPath,
    abs_path: AbsPath,
}

/// Mathematical form of a [`SourceTreePath`].
pub struct SourceTreePathView {
    pub root: Seq<Seq<char>>,
    pub abs: Seq<Seq<char>>,
}

impl View for SourceTreePath {
    type V = SourceTreePathView;

    closed spec fn view(&self) -> SourceTreePathView {
        SourceTreePathView { root: self.script_root@, abs: self.abs_path@ }
    }
}

/// The components of a path below its root.
pub open spec fn local_of(p: SourceTreePathView) -> Seq<Seq<char>> {
    p.abs.subrange(p.root.len() as int, p.abs.len() as int)
}

/// A relative path of normal components.
pub open spec fn relative_view(cs: Seq<Seq<char>>) -> PathBufView {
    PathBufView { is_absolute: false, components: cs.map_values(|s: Seq<char>| PathComponentView::Normal(s)) }
}

impl SourceTreePath {
    #[verifier::type_invariant]
    closed spec fn below_root(self) -> bool {
        is_path_prefix(self.script_root@, self.abs_path@)
    }

    pub fn new(script_root: AbsPath, abs_path: AbsPath) -> (r: SourceTreePath)
        requires
            is_path_prefix(script_root@, abs_path@),
        ensures
            r@.root == script_root@,
            r@.abs == abs_path@,
    {
        SourceTreePath { script_root, abs_path }
    }

    /// Every source tree path lies below its root.
    pub fn below_root_holds(&self)
        ensures
            is_path_prefix(self@.root, self@.abs),
    {
        proof {
            use_type_invariant(self);
        }
    }

    pub fn absolute(&self) -> (r: &AbsPath)
        ensures
            r@ == self@.abs,
    {
        &self.abs_path
    }

    pub fn into_absolute(self) -> (r: AbsPath)
        ensures
            r@ == self@.abs,
    {
        self.abs_path
    }

    /// The path below the script root.
    pub fn local(&self) -> (r: PathBuf)
        ensures
            r@ == relative_view(local_of(self@)),
    {
        proof {
            use_type_invariant(self);
        }
        let n = self.script_root.components.len();
        let mut cs: Vec<PathComponent> = Vec::new();
        let mut i: usize = n;
        let ghost loc = local_of(self@);
        while i < self.abs_path.components.len()
            invariant
                n == self@.root.len(),
                n <= i <= self@.abs.len(),
                self.abs_path.components@.len() == self@.abs.len(),
                loc == local_of(self@),
                cs@.len() == i - n,
                forall|j: int| 0 <= j < cs@.len() ==> (#[trigger] cs@[j])@ == PathComponentView::Normal(loc[j]),
            decreases self@.abs.len() - i,
        {
            cs.push(PathComponent::Normal(self.abs_path.components[i].clone()));
            i = i + 1;
        }
        let r = PathBuf { is_absolute: false, components: cs };
        assert(r@.components =~= loc.map_values(|s: Seq<char>| PathComponentView::Normal(s)));
        r
    }

    pub fn into_local(self) -> (r: PathBuf)
        ensures
            r@ == relative_view(local_of(self@)),
    {
        self.local()
    }

    pub fn script_root(&self) -> (r: &AbsPath)
        ensures
            r@ == self@.root,
    {
        &self.script_root
    }

    pub fn copy(&self) -> (r: SourceTreePath)
        ensures
            r@ == self@,
    {
        proof {
            use_type_invariant(self);
        }
        SourceTreePath { script_root: self.script_root.copy(), abs_path: self.abs_path.copy() }
    }
}

/// A script file in a source tree.
pub struct SourceTreeFile {
    pub path: SourceTreePath,
    pub modified_timestamp: Timestamp,
}

impl SourceTreeFile {
    pub fn copy(&self) -> (r: SourceTreeFile)
        ensures
            r.path@ == self.path@,
            r.modified_timestamp == self.modified_timestamp,
    {
        SourceTreeFile { path: self.path.copy(), modified_timestamp: self.modified_timestamp }
    }
}


/// Files in strictly increasing order of their absolute paths.
pub open spec fn sorted_files(s: Seq<SourceTreeFile>) -> bool {
    forall|a: int, b: int| 0 <= a < b < s.len() ==> path_lt((#[trigger] s[a]).path@.abs, (#[trigger] s[b]).path@.abs)
}

/// One of the files has the absolute path.
pub open spec fn has_abs(s: Seq<SourceTreeFile>, abs: Seq<Seq<char>>) -> bool {
    exists|i: int| 0 <= i < s.len() && (#[trigger] s[i]).path@.abs == abs
}

/// A file, by its path and timestamp.
pub open spec fn same_file(a: SourceTreeFile, b: SourceTreeFile) -> bool {
    a.path@ == b.path@ && a.modified_timestamp == b.modified_timestamp
}

/// The files of `s` whose path no file of `other` has, in order.
pub open spec fn missing_from(s: Seq<SourceTreeFile>, other: Seq<SourceTreeFile>) -> Seq<SourceTreeFile>
    decreases s.len(),
{
    if s.len() == 0 {
        Seq::empty()
    } else {
        let r = missing_from(s.drop_last(), other);
        if has_abs(other, s.last().path@.abs) {
            r
        } else {
            r.push(s.last())
        }
    }
}

/// The old files that some new file with the same path is newer than, in
/// order.
pub open spec fn outdated(old: Seq<SourceTreeFile>, new: Seq<SourceTreeFile>) -> Seq<SourceTreeFile>
    decreases old.len(),
{
    if old.len() == 0 {
        Seq::empty()
    } else {
        let r = outdated(old.drop_last(), new);
        let f = old.last();
        if exists|j: int| 0 <= j < new.len() && (#[trigger] new[j]).path@.abs == f.path@.abs && ts_lt(f.modified_timestamp, new[j].modified_timestamp) {
            r.push(f)
        } else {
            r
        }
    }
}

/// Two lists of files, file by file.
pub open spec fn same_files(a: Seq<SourceTreeFile>, b: Seq<SourceTreeFile>) -> bool {
    a.len() == b.len() && forall|i: int| 0 <= i < a.len() ==> same_file(#[trigger] a[i], b[i])
}

/// What changed between two scans of a source tree.
pub struct SourceTreeDifference {
    pub added: Vec<SourceTreeFile>,
    pub removed: Vec<SourceTreeFile>,
    pub modified: Vec<SourceTreeFile>,
}

impl SourceTreeDifference {
    pub open spec fn holds(&self, old: Seq<SourceTreeFile>, new: Seq<SourceTreeFile>) -> bool {
        &&& same_files(self.added@, missing_from(new, old))
        &&& same_files(self.removed@, missing_from(old, new))
        &&& same_files(self.modified@, outdated(old, new))
    }

    pub open spec fn is_empty_spec(&self) -> bool {
        self.added@.len() == 0 && self.removed@.len() == 0 && self.modified@.len() == 0
    }

    /// Compares two sorted lists of files in one merge: files only in the
    /// new list were added, files only in the old one removed, and files in
    /// both whose new timestamp is later were modified (the old file is
    /// reported).
    pub fn from_comparison(old_tree: Vec<SourceTreeFile>, new_tree: &Vec<SourceTreeFile>) -> (r: SourceTreeDifference)
        requires
            sorted_files(old_tree@),
            sorted_files(new_tree@),
        ensures
            r.holds(old_tree@, new_tree@),
    {
        let ghost old_v = old_tree@;
        let ghost new_v = new_tree@;
        let mut added: Vec<SourceTreeFile> = Vec::new();
        let mut removed: Vec<SourceTreeFile> = Vec::new();
        let mut modified: Vec<SourceTreeFile> = Vec::new();
        let mut i: usize = 0;
        let mut j: usize = 0;
        while i < old_tree.len() && j < new_tree.len()
            invariant
                i <= old_v.len(),
                j <= new_v.len(),
                old_tree@ == old_v,
                new_tree@ == new_v,
                sorted_files(old_v),
                sorted_files(new_v),
                // everything before the cursors lies below everything after the other cursor
                forall|a: int, b: int| 0 <= a < i && j <= b < new_v.len() ==> path_lt((#[trigger] old_v[a]).path@.abs, (#[trigger] new_v[b]).path@.abs),
                forall|a: int, b: int| 0 <= b < j && i <= a < old_v.len() ==> path_lt((#[trigger] new_v[b]).path@.abs, (#[trigger] old_v[a]).path@.abs),
                same_files(removed@, missing_from(old_v.take(i as int), new_v)),
                same_files(modified@, outdated(old_v.take(i as int), new_v)),
                same_files(added@, missing_from(new_v.take(j as int), old_v)),
            decreases old_v.len() - i + new_v.len() - j,
        {
            let o = &old_tree[i];
            let n = &new_tree[j];
            proof {
                assert(old_v.take(i + 1).drop_last() =~= old_v.take(i as int));
                assert(new_v.take(j + 1).drop_last() =~= new_v.take(j as int));
            }
            if components_lt(&o.path.abs_path.components, 0, &n.path.abs_path.components, 0) {
                proof {
                    assert(strs(o.path.abs_path.components@).subrange(0, o.path@.abs.len() as int) =~= o.path@.abs);
                    assert(strs(n.path.abs_path.components@).subrange(0, n.path@.abs.len() as int) =~= n.path@.abs);
                    // the old file's path is not among the new ones
                    assert forall|b: int| 0 <= b < new_v.len() implies (#[trigger] new_v[b]).path@.abs != old_v[i as int].path@.abs by {
                        if b >= j {
                            if b > j {
                                lemma_path_lt_transitive(old_v[i as int].path@.abs, new_v[j as int].path@.abs, new_v[b].path@.abs);
                            }
                            lemma_path_lt_irreflexive(new_v[b].path@.abs);
                        } else {
                            lemma_path_lt_irreflexive(new_v[b].path@.abs);
                        }
                    }
                    assert(!(exists|b: int| 0 <= b < new_v.len() && (#[trigger] new_v[b]).path@.abs == old_v[i as int].path@.abs && ts_lt(old_v[i as int].modified_timestamp, new_v[b].modified_timestamp)));
                    assert forall|a: int, b: int| 0 <= a < i + 1 && j <= b < new_v.len() implies path_lt((#[trigger] old_v[a]).path@.abs, (#[trigger] new_v[b]).path@.abs) by {
                        if a == i && b > j {
                            lemma_path_lt_transitive(old_v[a].path@.abs, new_v[j as int].path@.abs, new_v[b].path@.abs);
                        }
                    }
                    assert forall|a: int, b: int| 0 <= b < j && i + 1 <= a < old_v.len() implies path_lt((#[trigger] new_v[b]).path@.abs, (#[trigger] old_v[a]).path@.abs) by {
                        lemma_path_lt_transitive(new_v[b].path@.abs, old_v[i as int].path@.abs, old_v[a].path@.abs);
                    }
                }
                removed.push(o.copy());
                i = i + 1;
            } else if components_lt(&n.path.abs_path.components, 0, &o.path.abs_path.components, 0) {
                proof {
                    assert(strs(o.path.abs_path.components@).subrange(0, o.path@.abs.len() as int) =~= o.path@.abs);
                    assert(strs(n.path.abs_path.components@).subrange(0, n.path@.abs.len() as int) =~= n.path@.abs);
                    assert forall|a: int| 0 <= a < old_v.len() implies (#[trigger] old_v[a]).path@.abs != new_v[j as int].path@.abs by {
                        if a >= i {
                            if a > i {
                                lemma_path_lt_transitive(new_v[j as int].path@.abs, old_v[i as int].path@.abs, old_v[a].path@.abs);
                            }
                            lemma_path_lt_irreflexive(old_v[a].path@.abs);
                        } else {
                            lemma_path_lt_irreflexive(old_v[a].path@.abs);
                        }
                    }
                    assert forall|a: int, b: int| 0 <= b < j + 1 && i <= a < old_v.len() implies path_lt((#[trigger] new_v[b]).path@.abs, (#[trigger] old_v[a]).path@.abs) by {
                        if b == j && a > i {
                            lemma_path_lt_transitive(new_v[b].path@.abs, old_v[i as int].path@.abs, old_v[a].path@.abs);
                        }
                    }
                    assert forall|a: int, b: int| 0 <= a < i && j + 1 <= b < new_v.len() implies path_lt((#[trigger] old_v[a]).path@.abs, (#[trigger] new_v[b]).path@.abs) by {
                        lemma_path_lt_transitive(old_v[a].path@.abs, new_v[j as int].path@.abs, new_v[b].path@.abs);
                    }
                }
                added.push(n.copy());
                j = j + 1;
            } else {
                proof {
                    assert(strs(o.path.abs_path.components@).subrange(0, o.path@.abs.len() as int) =~= o.path@.abs);
                    assert(strs(n.path.abs_path.components@).subrange(0, n.path@.abs.len() as int) =~= n.path@.abs);
                    lemma_path_lt_total(o.path@.abs, n.path@.abs);
                    // the same path: no other file on either side has it
                    assert forall|b: int| 0 <= b < new_v.len() && b != j implies (#[trigger] new_v[b]).path@.abs != old_v[i as int].path@.abs by {
                        if b < j {
                            lemma_path_lt_irreflexive(new_v[b].path@.abs);
                        } else {
                            lemma_path_lt_irreflexive(new_v[j as int].path@.abs);
                        }
                    }
                    assert forall|a: int, b: int| 0 <= a < i + 1 && j + 1 <= b < new_v.len() implies path_lt((#[trigger] old_v[a]).path@.abs, (#[trigger] new_v[b]).path@.abs) by {
                        if a == i {
                            assert(old_v[a].path@.abs == new_v[j as int].path@.abs);
                        } else {
                            lemma_path_lt_transitive(old_v[a].path@.abs, new_v[j as int].path@.abs, new_v[b].path@.abs);
                        }
                    }
                    assert forall|a: int, b: int| 0 <= b < j + 1 && i + 1 <= a < old_v.len() implies path_lt((#[trigger] new_v[b]).path@.abs, (#[trigger] old_v[a]).path@.abs) by {
                        if b == j {
                            assert(new_v[b].path@.abs == old_v[i as int].path@.abs);
                        } else {
                            lemma_path_lt_transitive(new_v[b].path@.abs, old_v[i as int].path@.abs, old_v[a].path@.abs);
                        }
                    }
                    assert(has_abs(new_v, old_v[i as int].path@.abs));
                    assert(has_abs(old_v, new_v[j as int].path@.abs));
                }
                if o.modified_timestamp.lt(&n.modified_timestamp) {
                    modified.push(o.copy());
                } else {
                    assert(!(exists|b: int| 0 <= b < new_v.len() && (#[trigger] new_v[b]).path@.abs == old_v[i as int].path@.abs && ts_lt(old_v[i as int].modified_timestamp, new_v[b].modified_timestamp)));
                }
                i = i + 1;
                j = j + 1;
            }
        }
        while i < old_tree.len()
            invariant
                i <= old_v.len(),
                j <= new_v.len(),
                i < old_v.len() ==> j == new_v.len(),
                old_tree@ == old_v,
                new_tree@ == new_v,
                sorted_files(new_v),
                forall|a: int, b: int| 0 <= a < i && j <= b < new_v.len() ==> path_lt((#[trigger] old_v[a]).path@.abs, (#[trigger] new_v[b]).path@.abs),
                same_files(added@, missing_from(new_v.take(j as int), old_v)),
                forall|a: int, b: int| 0 <= b < j && i <= a < old_v.len() ==> path_lt((#[trigger] new_v[b]).path@.abs, (#[trigger] old_v[a]).path@.abs),
                same_files(removed@, missing_from(old_v.take(i as int), new_v)),
                same_files(modified@, outdated(old_v.take(i as int), new_v)),
            decreases old_v.len() - i,
        {
            proof {
                assert(old_v.take(i + 1).drop_last() =~= old_v.take(i as int));
                assert forall|b: int| 0 <= b < new_v.len() implies (#[trigger] new_v[b]).path@.abs != old_v[i as int].path@.abs by {
                    lemma_path_lt_irreflexive(new_v[b].path@.abs);
                }
                assert(!(exists|b: int| 0 <= b < new_v.len() && (#[trigger] new_v[b]).path@.abs == old_v[i as int].path@.abs && ts_lt(old_v[i as int].modified_timestamp, new_v[b].modified_timestamp)));
            }
            removed.push(old_tree[i].copy());
            i = i + 1;
        }
        while j < new_tree.len()
            invariant
                j <= new_v.len(),
                i == old_v.len(),
                new_tree@ == new_v,
                forall|a: int, b: int| 0 <= a < i && j <= b < new_v.len() ==> path_lt((#[trigger] old_v[a]).path@.abs, (#[trigger] new_v[b]).path@.abs),
                same_files(added@, missing_from(new_v.take(j as int), old_v)),
            decreases new_v.len() - j,
        {
            proof {
                assert(new_v.take(j + 1).drop_last() =~= new_v.take(j as int));
                assert forall|a: int| 0 <= a < old_v.len() implies (#[trigger] old_v[a]).path@.abs != new_v[j as int].path@.abs by {
                    lemma_path_lt_irreflexive(old_v[a].path@.abs);
                }
            }
            added.push(new_tree[j].copy());
            j = j + 1;
        }
        assert(old_v.take(old_v.len() as int) =~= old_v);
        assert(new_v.take(new_v.len() as int) =~= new_v);
        SourceTreeDifference { added, removed, modified }
    }

    pub fn is_empty(&self) -> (r: bool)
        ensures
            r == self.is_empty_spec(),
    {
        self.added.len() == 0 && self.removed.len() == 0 && self.modified.len() == 0
    }

    /// The scripts to analyse after the change: the added files, then the
    /// modified ones, by their absolute paths.
    pub fn paths_for_analysis(&self) -> (r: Vec<AbsPath>)
        ensures
            r@.len() == self.added@.len() + self.modified@.len(),
            forall|i: int| 0 <= i < self.added@.len() ==> #[trigger] r@[i]@ == self.added@[i].path@.abs,
            forall|i: int|
                0 <= i < self.modified@.len() ==> #[trigger] r@[self.added@.len() + i]@
                    == self.modified@[i].path@.abs,
    {
        let mut r: Vec<AbsPath> = Vec::new();
        let mut i: usize = 0;
        while i < self.added.len()
            invariant
                i <= self.added@.len(),
                r@.len() == i,
                forall|j: int| 0 <= j < i ==> #[trigger] r@[j]@ == self.added@[j].path@.abs,
            decreases self.added@.len() - i,
        {
            r.push(self.added[i].path.absolute().copy());
            i = i + 1;
        }
        let mut k: usize = 0;
        while k < self.modified.len()
            invariant
                k <= self.modified@.len(),
                r@.len() == self.added@.len() + k,
                forall|j: int| 0 <= j < self.added@.len() ==> #[trigger] r@[j]@ == self.added@[j].path@.abs,
                forall|j: int|
                    0 <= j < k ==> #[trigger] r@[self.added@.len() + j]@ == self.modified@[j].path@.abs,
            decreases self.modified@.len() - k,
        {
            r.push(self.modified[k].path.absolute().copy());
            k = k + 1;
        }
        r
    }
}


/// Whether a file is a script: its extension is `ws`.
pub fn is_script_file(path: &AbsPath) -> (r: bool)
    ensures
        r == (path_extension(path@) == Some(script_extension())),
{
    let ext = "ws";
    proof {
        reveal_strlit("ws");
    }
    assert(ext@ =~= script_extension());
    has_extension(path, ext)
}

/// The files of a content's script root, sorted by path.
pub struct SourceTree {
    script_root: AbsPath,
    tree: Vec<SourceTreeFile>,
    /// Errors encountered during scanning
    pub errors: Vec<FileError<IoError>>,
}

/// Every file lies below `root`, sorted by path.
pub open spec fn tree_holds(root: Seq<Seq<char>>, files: Seq<SourceTreeFile>) -> bool {
    &&& sorted_files(files)
    &&& forall|i: int| 0 <= i < files.len() ==> (#[trigger] files[i]).path@.root == root
    &&& forall|i: int| 0 <= i < files.len() ==> is_path_prefix(root, (#[trigger] files[i]).path@.abs)
}

/// Some file of `t` is the same as `f`.
pub open spec fn contains_file(t: Seq<SourceTreeFile>, f: SourceTreeFile) -> bool {
    exists|j: int| 0 <= j < t.len() && same_file(f, #[trigger] t[j])
}

/// `s` holds the same files as `t`, in some order.
pub open spec fn same_file_set(s: Seq<SourceTreeFile>, t: Seq<SourceTreeFile>) -> bool {
    &&& s.len() == t.len()
    &&& forall|i: int| 0 <= i < s.len() ==> contains_file(t, #[trigger] s[i])
    &&& forall|j: int| 0 <= j < t.len() ==> contains_file(s, #[trigger] t[j])
}

pub proof fn lemma_normal_map_injective(x: Seq<Seq<char>>, y: Seq<Seq<char>>)
    requires
        relative_view(x) == relative_view(y),
    ensures
        x == y,
{
    assert(x.len() == relative_view(x).components.len());
    assert forall|i: int| 0 <= i < x.len() implies x[i] == y[i] by {
        assert(relative_view(x).components[i] == PathComponentView::Normal(x[i]));
        assert(relative_view(y).components[i] == PathComponentView::Normal(y[i]));
    }
    assert(x =~= y);
}


/// Inserting a file before the first file above it keeps files sorted.
proof fn lemma_insert_sorted(root: Seq<Seq<char>>, t: Seq<SourceTreeFile>, ip: int, fv: SourceTreeFile)
    requires
        0 <= ip <= t.len(),
        tree_holds(root, t),
        fv.path@.root == root,
        is_path_prefix(root, fv.path@.abs),
        forall|a: int| 0 <= a < ip ==> !path_lt(fv.path@.abs, (#[trigger] t[a]).path@.abs),
        forall|a: int| 0 <= a < t.len() ==> (#[trigger] t[a]).path@.abs != fv.path@.abs,
        ip < t.len() ==> path_lt(fv.path@.abs, t[ip].path@.abs),
    ensures
        tree_holds(root, t.insert(ip, fv)),
{
    let n = t.insert(ip, fv);
    assert forall|a: int, b: int| 0 <= a < b < n.len() implies path_lt((#[trigger] n[a]).path@.abs, (#[trigger] n[b]).path@.abs) by {
        if b < ip {
            assert(n[a] == t[a] && n[b] == t[b]);
        } else if a > ip {
            assert(n[a] == t[a - 1] && n[b] == t[b - 1]);
        } else if a < ip && b > ip {
            assert(n[a] == t[a] && n[b] == t[b - 1]);
            lemma_path_lt_total(t[a].path@.abs, fv.path@.abs);
            if b - 1 > ip {
                lemma_path_lt_transitive(fv.path@.abs, t[ip].path@.abs, t[b - 1].path@.abs);
            }
            lemma_path_lt_transitive(t[a].path@.abs, fv.path@.abs, t[b - 1].path@.abs);
        } else if a == ip {
            assert(n[b] == t[b - 1]);
            if b - 1 > ip {
                lemma_path_lt_transitive(fv.path@.abs, t[ip].path@.abs, t[b - 1].path@.abs);
            }
        } else {
            assert(n[a] == t[a]);
            lemma_path_lt_total(t[a].path@.abs, fv.path@.abs);
        }
    }
    assert forall|i: int| 0 <= i < n.len() implies (#[trigger] n[i]).path@.root == root && is_path_prefix(root, n[i].path@.abs) by {
        if i < ip {
            assert(n[i] == t[i]);
        } else if i > ip {
            assert(n[i] == t[i - 1]);
        }
    }
}

/// The next found file has a path that no placed file has.
proof fn lemma_placed_distinct(t: Seq<SourceTreeFile>, all: Seq<SourceTreeFile>, k: int)
    requires
        0 <= k < all.len(),
        same_file_set(t, all.take(k)),
        forall|i: int, j: int| 0 <= i < j < all.len() ==> (#[trigger] all[i]).path@.abs != (#[trigger] all[j]).path@.abs,
    ensures
        forall|a: int| 0 <= a < t.len() ==> (#[trigger] t[a]).path@.abs != all[k].path@.abs,
{
    assert forall|a: int| 0 <= a < t.len() implies (#[trigger] t[a]).path@.abs != all[k].path@.abs by {
        assert(contains_file(all.take(k), t[a]));
        let m = choose|m: int| 0 <= m < all.take(k).len() && same_file(t[a], #[trigger] all.take(k)[m]);
        assert(all.take(k)[m] == all[m]);
    }
}

/// Inserting the next found file keeps the tree the same set as the files
/// found so far.
proof fn lemma_insert_same_set(t: Seq<SourceTreeFile>, ip: int, all: Seq<SourceTreeFile>, k: int)
    requires
        0 <= ip <= t.len(),
        0 <= k < all.len(),
        same_file_set(t, all.take(k)),
    ensures
        same_file_set(t.insert(ip, all[k]), all.take(k + 1)),
{
    let n = t.insert(ip, all[k]);
    let nk = all.take(k + 1);
    assert(n.len() == nk.len());
    assert forall|i: int| 0 <= i < n.len() implies contains_file(nk, #[trigger] n[i]) by {
        if i == ip {
            assert(same_file(n[i], nk[k]));
        } else {
            let ti = if i < ip { i } else { i - 1 };
            assert(n[i] == t[ti]);
            assert(contains_file(all.take(k), t[ti]));
            let m = choose|m: int| 0 <= m < all.take(k).len() && same_file(t[ti], #[trigger] all.take(k)[m]);
            assert(nk[m] == all.take(k)[m]);
        }
    }
    assert forall|j: int| 0 <= j < nk.len() implies contains_file(n, #[trigger] nk[j]) by {
        if j == k {
            assert(same_file(nk[j], n[ip]));
        } else {
            assert(nk[j] == all.take(k)[j]);
            assert(contains_file(t, all.take(k)[j]));
            let m = choose|m: int| 0 <= m < t.len() && same_file(all.take(k)[j], #[trigger] t[m]);
            if m < ip {
                assert(n[m] == t[m]);
            } else {
                assert(n[m + 1] == t[m]);
            }
        }
    }
}

impl SourceTree {
    pub closed spec fn root_v(&self) -> Seq<Seq<char>> {
        self.script_root@
    }

    /// The files, sorted by path.
    pub closed spec fn files(&self) -> Seq<SourceTreeFile> {
        self.tree@
    }

    pub open spec fn well_formed(&self) -> bool {
        tree_holds(self.root_v(), self.files())
    }

    /// The errors met by the last scan.
    pub closed spec fn errors_v(&self) -> Seq<FileError<IoError>> {
        self.errors@
    }

    /// An empty tree at the given script root.
    pub fn new(script_root: AbsPath) -> (r: SourceTree)
        ensures
            r.root_v() == script_root@,
            r.files().len() == 0,
            r.errors_v().len() == 0,
            r.well_formed(),
    {
        SourceTree { script_root, tree: Vec::new(), errors: Vec::new() }
    }

    /// Takes what a walk of the script root found (the script files, each
    /// path once, and the errors met) and tells what changed since the
    /// last scan. The files are kept sorted by path.
    pub fn scan(&mut self, found: Vec<SourceTreeFile>, errors: Vec<FileError<IoError>>) -> (r: SourceTreeDifference)
        requires
            old(self).well_formed(),
            forall|i: int| 0 <= i < found@.len() ==> (#[trigger] found@[i]).path@.root == old(self).root_v(),
            forall|i: int, j: int| 0 <= i < j < found@.len() ==> (#[trigger] found@[i]).path@.abs != (#[trigger] found@[j]).path@.abs,
        ensures
            final(self).well_formed(),
            final(self).root_v() == old(self).root_v(),
            final(self).errors_v() == errors@,
            same_file_set(final(self).files(), found@),
            r.holds(old(self).files(), final(self).files()),
    {
        let ghost all = found@;
        let ghost root = self.script_root@;
        let mut found = found;
        let mut tree: Vec<SourceTreeFile> = Vec::new();
        let ghost mut k: int = 0;
        while found.len() > 0
            invariant
                0 <= k <= all.len(),
                found@ == all.subrange(k, all.len() as int),
                root == self.script_root@,
                forall|i: int| 0 <= i < all.len() ==> (#[trigger] all[i]).path@.root == root,
                forall|i: int, j: int| 0 <= i < j < all.len() ==> (#[trigger] all[i]).path@.abs != (#[trigger] all[j]).path@.abs,
                tree_holds(root, tree@),
                same_file_set(tree@, all.take(k)),
            decreases found@.len(),
        {
            let f = found.remove(0);
            f.path.below_root_holds();
            proof {
                assert(f == all[k]);
            }
            let mut ip: usize = 0;
            while ip < tree.len() && !components_lt(&f.path.abs_path.components, 0, &tree[ip].path.abs_path.components, 0)
                invariant
                    ip <= tree@.len(),
                    forall|a: int| 0 <= a < ip ==> !path_lt(f.path@.abs, (#[trigger] tree@[a]).path@.abs),
                decreases tree@.len() - ip,
            {
                proof {
                    assert(strs(f.path.abs_path.components@).subrange(0, f.path@.abs.len() as int) =~= f.path@.abs);
                    assert(strs(tree@[ip as int].path.abs_path.components@).subrange(0, tree@[ip as int].path@.abs.len() as int) =~= tree@[ip as int].path@.abs);
                }
                ip = ip + 1;
            }
            proof {
                if ip < tree@.len() {
                    assert(strs(f.path.abs_path.components@).subrange(0, f.path@.abs.len() as int) =~= f.path@.abs);
                    assert(strs(tree@[ip as int].path.abs_path.components@).subrange(0, tree@[ip as int].path@.abs.len() as int) =~= tree@[ip as int].path@.abs);
                    assert(path_lt(f.path@.abs, tree@[ip as int].path@.abs));
                }
                lemma_placed_distinct(tree@, all, k);
            }
            let ghost t = tree@;
            tree.insert(ip, f);
            proof {
                lemma_insert_sorted(root, t, ip as int, all[k]);
                lemma_insert_same_set(t, ip as int, all, k);
                k = k + 1;
            }
            assert(found@ =~= all.subrange(k, all.len() as int));
        }
        assert(all.take(k) =~= all);
        let mut old_tree = tree;
        std::mem::swap(&mut old_tree, &mut self.tree);
        self.errors = errors;
        SourceTreeDifference::from_comparison(old_tree, &self.tree)
    }

    pub fn script_root(&self) -> (r: &AbsPath)
        ensures
            r@ == self.root_v(),
    {
        &self.script_root
    }

    pub fn len(&self) -> (r: usize)
        ensures
            r == self.files().len(),
    {
        self.tree.len()
    }

    /// The files, sorted by path.
    pub fn iter(&self) -> (r: &Vec<SourceTreeFile>)
        ensures
            r@ == self.files(),
    {
        &self.tree
    }

    /// The file with the given absolute path, found by binary search.
    pub fn find(&self, path: &AbsPath) -> (r: Option<&SourceTreeFile>)
        requires
            self.well_formed(),
        ensures
            match r {
                Some(f) => exists|i: int| 0 <= i < self.files().len() && *f == self.files()[i] && self.files()[i].path@.abs == path@,
                None => !has_abs(self.files(), path@),
            },
    {
        let ghost q = path@;
        assert(strs(path.components@).subrange(0, q.len() as int) =~= q);
        let mut lo: usize = 0;
        let mut hi: usize = self.tree.len();
        while lo < hi
            invariant
                lo <= hi <= self.tree@.len(),
                q == path@,
                strs(path.components@).subrange(0, q.len() as int) == q,
                sorted_files(self.tree@),
                forall|k: int| 0 <= k < lo ==> path_lt((#[trigger] self.tree@[k]).path@.abs, q),
                forall|k: int| hi <= k < self.tree@.len() ==> path_lt(q, (#[trigger] self.tree@[k]).path@.abs),
            decreases hi - lo,
        {
            let mid = lo + (hi - lo) / 2;
            let f = &self.tree[mid];
            let ghost fa = f.path@.abs;
            assert(strs(f.path.abs_path.components@).subrange(0, fa.len() as int) =~= fa);
            if components_lt(&f.path.abs_path.components, 0, &path.components, 0) {
                proof {
                    assert forall|k: int| 0 <= k < mid + 1 implies path_lt((#[trigger] self.tree@[k]).path@.abs, q) by {
                        if k < mid {
                            lemma_path_lt_transitive(self.tree@[k].path@.abs, fa, q);
                        }
                    }
                }
                lo = mid + 1;
            } else if components_lt(&path.components, 0, &f.path.abs_path.components, 0) {
                proof {
                    assert forall|k: int| mid <= k < self.tree@.len() implies path_lt(q, (#[trigger] self.tree@[k]).path@.abs) by {
                        if k > mid {
                            lemma_path_lt_transitive(q, fa, self.tree@[k].path@.abs);
                        }
                    }
                }
                hi = mid;
            } else {
                proof {
                    lemma_path_lt_total(fa, q);
                    assert(self.files()[mid as int].path@.abs == path@);
                }
                return Some(f);
            }
        }
        proof {
            assert forall|k: int| 0 <= k < self.tree@.len() implies (#[trigger] self.tree@[k]).path@.abs != q by {
                lemma_path_lt_irreflexive(q);
            }
        }
        None
    }

    /// Searches for a file with a given absolute path
    pub fn contains(&self, path: &AbsPath) -> (r: bool)
        requires
            self.well_formed(),
        ensures
            r == has_abs(self.files(), path@),
    {
        self.find(path).is_some()
    }

    /// The file with the given path below the script root, found by binary
    /// search.
    pub fn find_local(&self, path: &PathBuf) -> (r: Option<&SourceTreeFile>)
        requires
            self.well_formed(),
        ensures
            match r {
                Some(f) => exists|i: int|
                    0 <= i < self.files().len() && *f == self.files()[i] && relative_view(local_of(self.files()[i].path@)) == path@,
                None => forall|i: int|
                    0 <= i < self.files().len() ==> relative_view(local_of((#[trigger] self.files()[i]).path@)) != path@,
            },
    {
        // a local path is relative and made of normal components only
        if path.is_absolute {
            return None;
        }
        let mut q: Vec<String> = Vec::new();
        let mut c: usize = 0;
        while c < path.components.len()
            invariant
                c <= path.components@.len(),
                q@.len() == c,
                forall|j: int| 0 <= j < c ==> path@.components[j] == PathComponentView::Normal(#[trigger] q@[j]@),
            decreases path.components@.len() - c,
        {
            match &path.components[c] {
                PathComponent::Normal(s) => q.push(s.clone()),
                _ => {
                    proof {
                        assert forall|i: int| 0 <= i < self.tree@.len() implies relative_view(local_of((#[trigger] self.tree@[i]).path@)) != path@ by {
                            let l = local_of(self.tree@[i].path@);
                            assert(path@.components[c as int] == path.components@[c as int]@);
                            assert(!(path@.components[c as int] is Normal));
                            if c < l.len() {
                                assert(relative_view(l).components[c as int] == PathComponentView::Normal(l[c as int]));
                            } else {
                                assert(relative_view(l).components.len() != path@.components.len());
                            }
                        }
                    }
                    return None;
                },
            }
            c = c + 1;
        }
        let ghost qv = strs(q@);
        assert(relative_view(qv) == path@) by {
            assert(relative_view(qv).components =~= path@.components);
        }
        assert(strs(q@).subrange(0, qv.len() as int) =~= qv);
        let root_len = self.script_root.components.len();
        let ghost root = self.script_root@;
        // sorted by absolute path, the files are sorted by local path too
        proof {
            assert forall|a: int, b: int| 0 <= a < b < self.tree@.len() implies path_lt(
                local_of((#[trigger] self.tree@[a]).path@),
                local_of((#[trigger] self.tree@[b]).path@),
            ) by {
                lemma_path_lt_common_prefix(root, self.tree@[a].path@.abs, self.tree@[b].path@.abs);
            }
        }
        let mut lo: usize = 0;
        let mut hi: usize = self.tree.len();
        while lo < hi
            invariant
                lo <= hi <= self.tree@.len(),
                root == self.script_root@,
                root_len == root.len(),
                qv == strs(q@),
                strs(q@).subrange(0, qv.len() as int) == qv,
                relative_view(qv) == path@,
                tree_holds(root, self.tree@),
                forall|a: int, b: int| 0 <= a < b < self.tree@.len() ==> path_lt(
                    local_of((#[trigger] self.tree@[a]).path@),
                    local_of((#[trigger] self.tree@[b]).path@),
                ),
                forall|k: int| 0 <= k < lo ==> path_lt(local_of((#[trigger] self.tree@[k]).path@), qv),
                forall|k: int| hi <= k < self.tree@.len() ==> path_lt(qv, local_of((#[trigger] self.tree@[k]).path@)),
            decreases hi - lo,
        {
            let mid = lo + (hi - lo) / 2;
            let f = &self.tree[mid];
            let ghost fl = local_of(f.path@);
            proof {
                assert(is_path_prefix(root, f.path@.abs));
                assert(strs(f.path.abs_path.components@).subrange(root_len as int, f.path@.abs.len() as int) =~= fl);
            }
            if components_lt(&f.path.abs_path.components, root_len, &q, 0) {
                proof {
                    assert forall|k: int| 0 <= k < mid + 1 implies path_lt(local_of((#[trigger] self.tree@[k]).path@), qv) by {
                        if k < mid {
                            lemma_path_lt_transitive(local_of(self.tree@[k].path@), fl, qv);
                        }
                    }
                }
                lo = mid + 1;
            } else if components_lt(&q, 0, &f.path.abs_path.components, root_len) {
                proof {
                    assert forall|k: int| mid <= k < self.tree@.len() implies path_lt(qv, local_of((#[trigger] self.tree@[k]).path@)) by {
                        if k > mid {
                            lemma_path_lt_transitive(qv, fl, local_of(self.tree@[k].path@));
                        }
                    }
                }
                hi = mid;
            } else {
                proof {
                    lemma_path_lt_total(fl, qv);
                    assert(relative_view(local_of(self.files()[mid as int].path@)) == path@);
                }
                return Some(f);
            }
        }
        proof {
            assert forall|i: int| 0 <= i < self.tree@.len() implies relative_view(local_of((#[trigger] self.tree@[i]).path@)) != path@ by {
                lemma_path_lt_irreflexive(qv);
                if relative_view(local_of(self.tree@[i].path@)) == path@ {
                    lemma_normal_map_injective(local_of(self.tree@[i].path@), qv);
                }
            }
        }
        None
    }

    /// Searches for a file with a given path relative to the tree root
    pub fn contains_local(&self, path: &PathBuf) -> (r: bool)
        requires
            self.well_formed(),
        ensures
            r == exists|i: int| 0 <= i < self.files().len() && relative_view(local_of((#[trigger] self.files()[i]).path@)) == path@,
    {
        self.find_local(path).is_some()
    }
}

/// Comparing a sorted tree with itself finds no difference.
/// Every file of `a` has a path that a file of `b` has, and the other way
/// round.
pub open spec fn same_paths(a: Seq<SourceTreeFile>, b: Seq<SourceTreeFile>) -> bool {
    &&& forall|i: int| 0 <= i < a.len() ==> has_abs(b, (#[trigger] a[i]).path@.abs)
    &&& forall|j: int| 0 <= j < b.len() ==> has_abs(a, (#[trigger] b[j]).path@.abs)
}

/// No new file is newer than an old file with the same path.
pub open spec fn none_newer(old: Seq<SourceTreeFile>, new: Seq<SourceTreeFile>) -> bool {
    forall|i: int, j: int|
        0 <= i < old.len() && 0 <= j < new.len() && (#[trigger] old[i]).path@.abs == (#[trigger] new[j]).path@.abs
            ==> !ts_lt(old[i].modified_timestamp, new[j].modified_timestamp)
}

/// Comparing a tree with an empty one before it: every file was added,
/// nothing was removed or modified.
pub proof fn lemma_difference_from_nothing(d: SourceTreeDifference, files: Seq<SourceTreeFile>)
    requires
        d.holds(Seq::empty(), files),
    ensures
        same_files(d.added@, files),
        d.removed@.len() == 0,
        d.modified@.len() == 0,
{
    lemma_missing_from_nothing(files);
}

/// Comparing a tree with an empty one after it: every file was removed,
/// nothing was added or modified.
pub proof fn lemma_difference_to_nothing(d: SourceTreeDifference, files: Seq<SourceTreeFile>)
    requires
        d.holds(files, Seq::empty()),
    ensures
        same_files(d.removed@, files),
        d.added@.len() == 0,
        d.modified@.len() == 0,
{
    lemma_missing_from_nothing(files);
    lemma_outdated_empty_iff(files, Seq::empty());
}

/// The difference is empty exactly when both trees hold the same paths and
/// no file got a later timestamp.
pub proof fn lemma_difference_empty_iff(d: SourceTreeDifference, old: Seq<SourceTreeFile>, new: Seq<SourceTreeFile>)
    requires
        d.holds(old, new),
    ensures
        d.is_empty_spec() <==> (same_paths(old, new) && none_newer(old, new)),
{
    lemma_missing_from_empty_iff(new, old);
    lemma_missing_from_empty_iff(old, new);
    lemma_outdated_empty_iff(old, new);
}

proof fn lemma_missing_from_nothing(s: Seq<SourceTreeFile>)
    ensures
        missing_from(s, Seq::empty()) == s,
    decreases s.len(),
{
    if s.len() > 0 {
        lemma_missing_from_nothing(s.drop_last());
        assert(!has_abs(Seq::<SourceTreeFile>::empty(), s.last().path@.abs));
        assert(s.drop_last().push(s.last()) =~= s);
    }
}

proof fn lemma_missing_from_empty_iff(s: Seq<SourceTreeFile>, other: Seq<SourceTreeFile>)
    ensures
        missing_from(s, other).len() == 0 <==> forall|i: int| 0 <= i < s.len() ==> has_abs(other, (#[trigger] s[i]).path@.abs),
    decreases s.len(),
{
    if s.len() > 0 {
        let t = s.drop_last();
        lemma_missing_from_empty_iff(t, other);
        if forall|i: int| 0 <= i < s.len() ==> has_abs(other, (#[trigger] s[i]).path@.abs) {
            assert forall|i: int| 0 <= i < t.len() implies has_abs(other, (#[trigger] t[i]).path@.abs) by {
                assert(t[i] == s[i]);
            }
            assert(has_abs(other, s[s.len() - 1].path@.abs));
        } else {
            let k = choose|i: int| 0 <= i < s.len() && !has_abs(other, (#[trigger] s[i]).path@.abs);
            if k < s.len() - 1 {
                assert(t[k] == s[k]);
            }
        }
    }
}

proof fn lemma_outdated_empty_iff(old: Seq<SourceTreeFile>, new: Seq<SourceTreeFile>)
    ensures
        outdated(old, new).len() == 0 <==> none_newer(old, new),
    decreases old.len(),
{
    if old.len() > 0 {
        let t = old.drop_last();
        let f = old.last();
        lemma_outdated_empty_iff(t, new);
        if none_newer(old, new) {
            assert forall|i: int, j: int|
                0 <= i < t.len() && 0 <= j < new.len() && (#[trigger] t[i]).path@.abs == (#[trigger] new[j]).path@.abs
                implies !ts_lt(t[i].modified_timestamp, new[j].modified_timestamp) by {
                assert(t[i] == old[i]);
            }
            assert(!exists|j: int| 0 <= j < new.len() && (#[trigger] new[j]).path@.abs == f.path@.abs && ts_lt(f.modified_timestamp, new[j].modified_timestamp)) by {
                if exists|j: int| 0 <= j < new.len() && (#[trigger] new[j]).path@.abs == f.path@.abs && ts_lt(f.modified_timestamp, new[j].modified_timestamp) {
                    let j = choose|j: int| 0 <= j < new.len() && (#[trigger] new[j]).path@.abs == f.path@.abs && ts_lt(f.modified_timestamp, new[j].modified_timestamp);
                    assert(old[old.len() - 1].path@.abs == new[j].path@.abs);
                }
            }
        } else {
            let (a, b) = choose|i: int, j: int|
                0 <= i < old.len() && 0 <= j < new.len() && (#[trigger] old[i]).path@.abs == (#[trigger] new[j]).path@.abs
                    && ts_lt(old[i].modified_timestamp, new[j].modified_timestamp);
            if a < old.len() - 1 {
                assert(t[a] == old[a]);
                assert(!none_newer(t, new));
            } else {
                assert(new[b].path@.abs == f.path@.abs && ts_lt(f.modified_timestamp, new[b].modified_timestamp));
            }
        }
    }
}

pub proof fn lemma_difference_with_itself(d: SourceTreeDifference, files: Seq<SourceTreeFile>)
    requires
        sorted_files(files),
        d.holds(files, files),
    ensures
        d.is_empty_spec(),
{
    assert forall|i: int| 0 <= i < files.len() implies has_abs(files, (#[trigger] files[i]).path@.abs) by {}
    lemma_missing_from_self(files, files);
    assert forall|i: int| 0 <= i < files.len() implies exists|j: int| 0 <= j < files.len() && (#[trigger] files[i]) == files[j] by {}
    lemma_outdated_self(files, files);
}

proof fn lemma_missing_from_self(s: Seq<SourceTreeFile>, all: Seq<SourceTreeFile>)
    requires
        forall|i: int| 0 <= i < s.len() ==> has_abs(all, (#[trigger] s[i]).path@.abs),
    ensures
        missing_from(s, all).len() == 0,
    decreases s.len(),
{
    if s.len() > 0 {
        assert(has_abs(all, s[s.len() - 1].path@.abs));
        assert forall|i: int| 0 <= i < s.drop_last().len() implies has_abs(all, (#[trigger] s.drop_last()[i]).path@.abs) by {
            assert(s.drop_last()[i] == s[i]);
        }
        lemma_missing_from_self(s.drop_last(), all);
    }
}

proof fn lemma_outdated_self(s: Seq<SourceTreeFile>, all: Seq<SourceTreeFile>)
    requires
        sorted_files(all),
        forall|i: int| 0 <= i < s.len() ==> exists|j: int| 0 <= j < all.len() && (#[trigger] s[i]) == all[j],
    ensures
        outdated(s, all).len() == 0,
    decreases s.len(),
{
    if s.len() > 0 {
        let f = s.last();
        let m = choose|j: int| 0 <= j < all.len() && s[s.len() - 1] == all[j];
        assert forall|j: int| 0 <= j < all.len() && (#[trigger] all[j]).path@.abs == f.path@.abs implies !ts_lt(f.modified_timestamp, all[j].modified_timestamp) by {
            if j != m {
                if j < m {
                    assert(path_lt(all[j].path@.abs, all[m].path@.abs));
                } else {
                    assert(path_lt(all[m].path@.abs, all[j].path@.abs));
                }
                lemma_path_lt_irreflexive(f.path@.abs);
            }
        }
        assert forall|i: int| 0 <= i < s.drop_last().len() implies exists|j: int| 0 <= j < all.len() && (#[trigger] s.drop_last()[i]) == all[j] by {
            assert(s.drop_last()[i] == s[i]);
        }
        lemma_outdated_self(s.drop_last(), all);
    }
}

} // verus!
