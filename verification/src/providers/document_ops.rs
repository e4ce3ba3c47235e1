//! What the server does after the client reports files created, deleted,
//! renamed or saved, and folders added to or removed from the workspace.
//! The functions here decide; rescanning and rebuilding are left to the
//! caller.

use vstd::prelude::*;
use crate::paths::{AbsPath, is_path_prefix};
use crate::content_graph::{ContentGraph, GraphNode, first_containing};
use crate::manifest::manifest_file_name;
use crate::redkit::manifest::redkit_extension;
use crate::source_tree::is_script_file;

verus! {

/// A path named in a file operation, with whether a directory stands there.
pub struct FileOperationPath {
    pub path: AbsPath,
    pub is_dir: bool,
}

/// The views of a sequence of paths.
pub open spec fn path_views(v: Seq<AbsPath>) -> Seq<Seq<Seq<char>>> {
    v.map_values(|p: AbsPath| p@)
}

/// Index of the last `.` among the first `n` characters of `name`, or -1.
pub open spec fn last_dot_before(name: Seq<char>, n: int) -> int
    decreases n,
{
    if n <= 0 {
        -1
    } else if name[n - 1] == '.' {
        n - 1
    } else {
        last_dot_before(name, n - 1)
    }
}

/// The extension of a file name: what follows its last dot, where that dot
/// is not its first character and the name is not `..`.
pub open spec fn extension_spec(name: Seq<char>) -> Option<Seq<char>> {
    let k = last_dot_before(name, name.len() as int);
    if name == seq!['.', '.'] || k <= 0 {
        None
    } else {
        Some(name.subrange(k + 1, name.len() as int))
    }
}

/// The extension of the last component of a path.
pub open spec fn path_extension(p: Seq<Seq<char>>) -> Option<Seq<char>> {
    if p.len() == 0 {
        None
    } else {
        extension_spec(p.last())
    }
}

pub open spec fn script_extension() -> Seq<char> {
    seq!['w', 's']
}

pub open spec fn manifest_name_v() -> Seq<char> {
    seq!['w', 'i', 't', 'c', 'h', 'e', 'r', 's', 'c', 'r', 'i', 'p', 't', '.', 't', 'o', 'm', 'l']
}

pub open spec fn redkit_extension_v() -> Seq<char> {
    seq!['w', '3', 'e', 'd', 'i', 't']
}

/// A script file or a directory: what changes a content's source tree.
pub open spec fn touches_sources(p: FileOperationPath) -> bool {
    path_extension(p.path@) == Some(script_extension()) || p.is_dir
}

/// A project manifest or a REDkit project file.
pub open spec fn touches_manifest(p: FileOperationPath) -> bool {
    (p.path@.len() > 0 && p.path@.last() == manifest_name_v()) || path_extension(p.path@) == Some(
        redkit_extension_v(),
    )
}

/// Some path of `ops` that changes sources lies in the content at `c`.
pub open spec fn sources_changed_in(nodes: Seq<GraphNode>, ops: Seq<FileOperationPath>, c: Seq<Seq<char>>) -> bool {
    exists|i: int|
        0 <= i < ops.len() && touches_sources(#[trigger] ops[i]) && first_containing(nodes, ops[i].path@, 0)
            == Some(c)
}

/// Some path of `ops` that is a manifest (and changes no sources) lies in
/// the content at `c`.
pub open spec fn manifest_removed_in(nodes: Seq<GraphNode>, ops: Seq<FileOperationPath>, c: Seq<Seq<char>>) -> bool {
    exists|i: int|
        0 <= i < ops.len() && !touches_sources(#[trigger] ops[i]) && touches_manifest(ops[i])
            && first_containing(nodes, ops[i].path@, 0) == Some(c)
}

/// The contents to rescan or drop after files were deleted.
pub struct DeletionEffects {
    /// Contents whose source trees are scanned anew.
    pub contents_to_update: Vec<AbsPath>,
    /// Contents whose manifest went away.
    pub contents_to_be_deleted: Vec<AbsPath>,
    /// Whether the content graph is built anew.
    pub rebuild_graph: bool,
}

/// What a saved document asks for.
pub struct SaveEffects {
    /// The content whose source tree is scanned anew.
    pub rescan: Option<AbsPath>,
    /// Whether the content graph is built anew.
    pub rebuild_graph: bool,
}

/// Whether the last `ext.len()` characters of `name` follow its last dot,
/// as [`extension_spec`] reads it.
fn name_has_extension(name: &str, ext: &str) -> (r: bool)
    ensures
        r == (extension_spec(name@) == Some(ext@)),
{
    let n = name.unicode_len();
    let mut k: usize = n;
    while k > 0 && name.get_char(k - 1) != '.'
        invariant
            k <= n,
            n == name@.len(),
            last_dot_before(name@, n as int) == last_dot_before(name@, k as int),
        decreases k,
    {
        k = k - 1;
    }
    // `k` is one past the last dot, or zero where there is none.
    assert(k > 0 ==> last_dot_before(name@, k as int) == k - 1);
    if k <= 1 {
        return false;
    }
    if n == 2 && name.get_char(0) == '.' && name.get_char(1) == '.' {
        assert(name@ =~= seq!['.', '.']);
        return false;
    }
    assert(name@ != seq!['.', '.']) by {
        if name@ == seq!['.', '.'] {
            assert(name@[0] == '.' && name@[1] == '.');
        }
    }
    let m = ext.unicode_len();
    if n - k != m {
        assert(name@.subrange(k as int, n as int).len() != ext@.len());
        return false;
    }
    assert(extension_spec(name@) == Some(name@.subrange(k as int, n as int)));
    let mut i: usize = 0;
    while i < m
        invariant
            extension_spec(name@) == Some(name@.subrange(k as int, n as int)),
            i <= m,
            m == ext@.len(),
            n == name@.len(),
            k + m == n,
            forall|j: int| 0 <= j < i ==> name@[k + j] == ext@[j],
        decreases m - i,
    {
        if name.get_char(k + i) != ext.get_char(i) {
            assert(name@.subrange(k as int, n as int)[i as int] != ext@[i as int]);
            return false;
        }
        i = i + 1;
    }
    assert(name@.subrange(k as int, n as int) =~= ext@);
    true
}

/// Whether the last component of `path` has the extension `ext`.
pub fn has_extension(path: &AbsPath, ext: &str) -> (r: bool)
    ensures
        r == (path_extension(path@) == Some(ext@)),
{
    match path.file_name() {
        Some(name) => name_has_extension(name.as_str(), ext),
        None => false,
    }
}

fn is_manifest_path(path: &AbsPath) -> (r: bool)
    ensures
        r == (path@.len() > 0 && path@.last() == manifest_name_v()),
{
    match path.file_name() {
        Some(name) => crate::paths::str_eq(name.as_str(), manifest_file_name()),
        None => false,
    }
}

fn is_redkit_path(path: &AbsPath) -> (r: bool)
    ensures
        r == (path_extension(path@) == Some(redkit_extension_v())),
{
    has_extension(path, redkit_extension())
}

/// Whether `v` holds a path equal to `p`.
pub fn contains_path(v: &Vec<AbsPath>, p: &AbsPath) -> (r: bool)
    ensures
        r == path_views(v@).contains(p@),
{
    let mut i: usize = 0;
    while i < v.len()
        invariant
            i <= v@.len(),
            forall|j: int| 0 <= j < i ==> v@[j]@ != p@,
        decreases v@.len() - i,
    {
        if v[i].eq(p) {
            assert(path_views(v@)[i as int] == p@);
            return true;
        }
        i = i + 1;
    }
    assert(!path_views(v@).contains(p@)) by {
        if path_views(v@).contains(p@) {
            let j = choose|j: int| 0 <= j < path_views(v@).len() && path_views(v@)[j] == p@;
            assert(v@[j]@ == p@);
        }
    }
    false
}

/// Adds `p` to `v` where no equal path is there yet.
fn push_unique(v: &mut Vec<AbsPath>, p: AbsPath)
    requires
        path_views(old(v)@).no_duplicates(),
    ensures
        path_views(final(v)@).no_duplicates(),
        forall|c: Seq<Seq<char>>| path_views(final(v)@).contains(c) <==> (path_views(old(v)@).contains(c) || c == p@),
{
    let ghost pv = p@;
    if !contains_path(v, &p) {
        v.push(p);
        assert(path_views(v@) =~= path_views(old(v)@).push(pv));
        assert forall|c: Seq<Seq<char>>| path_views(v@).contains(c) <==> (path_views(old(v)@).contains(c) || c == pv) by {
            if path_views(old(v)@).contains(c) {
                let j = choose|j: int| 0 <= j < path_views(old(v)@).len() && path_views(old(v)@)[j] == c;
                assert(path_views(v@)[j] == c);
            }
            if c == pv {
                assert(path_views(v@)[old(v)@.len() as int] == c);
            }
            if path_views(v@).contains(c) {
                let j = choose|j: int| 0 <= j < path_views(v@).len() && path_views(v@)[j] == c;
                if j < old(v)@.len() {
                    assert(path_views(old(v)@)[j] == c);
                }
            }
        }
    }
}

/// The contents whose source trees change when the paths in `ops` are
/// created, deleted or renamed: the content that contains each script file
/// or directory among them, each content once.
pub fn contents_with_changed_sources(graph: &ContentGraph, ops: &Vec<FileOperationPath>) -> (r: Vec<AbsPath>)
    ensures
        path_views(r@).no_duplicates(),
        forall|c: Seq<Seq<char>>| #[trigger] path_views(r@).contains(c) <==> sources_changed_in(graph.nodes@, ops@, c),
{
    let mut r: Vec<AbsPath> = Vec::new();
    let mut i: usize = 0;
    while i < ops.len()
        invariant
            i <= ops@.len(),
            path_views(r@).no_duplicates(),
            forall|c: Seq<Seq<char>>|
                #[trigger] path_views(r@).contains(c) <==> sources_changed_in(graph.nodes@, ops@.take(i as int), c),
        decreases ops@.len() - i,
    {
        let ghost before = r@;
        let op = &ops[i];
        let touched = is_script_file(&op.path) || op.is_dir;
        if touched {
            match graph.strip_content_path_prefix(&op.path) {
                Some(content_path) => push_unique(&mut r, content_path),
                None => {},
            }
        }
        assert forall|c: Seq<Seq<char>>| #[trigger] path_views(r@).contains(c) <==> sources_changed_in(
            graph.nodes@,
            ops@.take(i + 1),
            c,
        ) by {
            if sources_changed_in(graph.nodes@, ops@.take(i + 1), c) {
                let j = choose|j: int|
                    0 <= j < ops@.take(i + 1).len() && touches_sources(#[trigger] ops@.take(i + 1)[j])
                        && first_containing(graph.nodes@, ops@.take(i + 1)[j].path@, 0) == Some(c);
                if j < i {
                    assert(ops@.take(i as int)[j] == ops@.take(i + 1)[j]);
                    assert(sources_changed_in(graph.nodes@, ops@.take(i as int), c));
                }
            }
            if path_views(before).contains(c) {
                assert(sources_changed_in(graph.nodes@, ops@.take(i as int), c));
                let j = choose|j: int|
                    0 <= j < ops@.take(i as int).len() && touches_sources(#[trigger] ops@.take(i as int)[j])
                        && first_containing(graph.nodes@, ops@.take(i as int)[j].path@, 0) == Some(c);
                assert(ops@.take(i as int)[j] == ops@.take(i + 1)[j]);
            }
            if touched && first_containing(graph.nodes@, op.path@, 0) == Some(c) {
                assert(ops@.take(i + 1)[i as int] == ops@[i as int]);
            }
        }
        i = i + 1;
    }
    assert(ops@.take(ops@.len() as int) =~= ops@);
    r
}

/// The contents whose manifest is among the deleted paths in `ops`, each
/// content once.
fn contents_with_removed_manifest(graph: &ContentGraph, ops: &Vec<FileOperationPath>) -> (r: Vec<AbsPath>)
    ensures
        path_views(r@).no_duplicates(),
        forall|c: Seq<Seq<char>>| #[trigger] path_views(r@).contains(c) <==> manifest_removed_in(graph.nodes@, ops@, c),
{
    let mut r: Vec<AbsPath> = Vec::new();
    let mut i: usize = 0;
    while i < ops.len()
        invariant
            i <= ops@.len(),
            path_views(r@).no_duplicates(),
            forall|c: Seq<Seq<char>>|
                #[trigger] path_views(r@).contains(c) <==> manifest_removed_in(graph.nodes@, ops@.take(i as int), c),
        decreases ops@.len() - i,
    {
        let ghost before = r@;
        let op = &ops[i];
        let touched = !(is_script_file(&op.path) || op.is_dir) && (is_manifest_path(&op.path) || is_redkit_path(&op.path));
        if touched {
            match graph.strip_content_path_prefix(&op.path) {
                Some(content_path) => push_unique(&mut r, content_path),
                None => {},
            }
        }
        assert forall|c: Seq<Seq<char>>| #[trigger] path_views(r@).contains(c) <==> manifest_removed_in(
            graph.nodes@,
            ops@.take(i + 1),
            c,
        ) by {
            if manifest_removed_in(graph.nodes@, ops@.take(i + 1), c) {
                let j = choose|j: int|
                    0 <= j < ops@.take(i + 1).len() && !touches_sources(#[trigger] ops@.take(i + 1)[j])
                        && touches_manifest(ops@.take(i + 1)[j])
                        && first_containing(graph.nodes@, ops@.take(i + 1)[j].path@, 0) == Some(c);
                if j < i {
                    assert(ops@.take(i as int)[j] == ops@.take(i + 1)[j]);
                    assert(manifest_removed_in(graph.nodes@, ops@.take(i as int), c));
                }
            }
            if path_views(before).contains(c) {
                assert(manifest_removed_in(graph.nodes@, ops@.take(i as int), c));
                let j = choose|j: int|
                    0 <= j < ops@.take(i as int).len() && !touches_sources(#[trigger] ops@.take(i as int)[j])
                        && touches_manifest(ops@.take(i as int)[j])
                        && first_containing(graph.nodes@, ops@.take(i as int)[j].path@, 0) == Some(c);
                assert(ops@.take(i as int)[j] == ops@.take(i + 1)[j]);
            }
            if touched && first_containing(graph.nodes@, op.path@, 0) == Some(c) {
                assert(ops@.take(i + 1)[i as int] == ops@[i as int]);
            }
        }
        i = i + 1;
    }
    assert(ops@.take(ops@.len() as int) =~= ops@);
    r
}

/// What follows the deletion of the paths in `ops`: the contents that hold
/// a deleted script file or directory are scanned anew, but for those whose
/// manifest was deleted, which leave the graph when it is built anew.
pub fn deletion_effects(graph: &ContentGraph, ops: &Vec<FileOperationPath>) -> (r: DeletionEffects)
    ensures
        path_views(r.contents_to_update@).no_duplicates(),
        path_views(r.contents_to_be_deleted@).no_duplicates(),
        forall|c: Seq<Seq<char>>|
            #[trigger] path_views(r.contents_to_update@).contains(c) <==> (sources_changed_in(graph.nodes@, ops@, c)
                && !manifest_removed_in(graph.nodes@, ops@, c)),
        forall|c: Seq<Seq<char>>|
            #[trigger] path_views(r.contents_to_be_deleted@).contains(c) <==> manifest_removed_in(
                graph.nodes@,
                ops@,
                c,
            ),
        r.rebuild_graph == (r.contents_to_be_deleted@.len() > 0),
{
    let changed = contents_with_changed_sources(graph, ops);
    let deleted = contents_with_removed_manifest(graph, ops);
    let mut update: Vec<AbsPath> = Vec::new();
    let mut i: usize = 0;
    while i < changed.len()
        invariant
            i <= changed@.len(),
            path_views(changed@).no_duplicates(),
            path_views(update@).no_duplicates(),
            forall|c: Seq<Seq<char>>|
                #[trigger] path_views(update@).contains(c) <==> (path_views(changed@.take(i as int)).contains(c)
                    && !path_views(deleted@).contains(c)),
        decreases changed@.len() - i,
    {
        let ghost before = update@;
        let keep = !contains_path(&deleted, &changed[i]);
        let ghost ci = changed@[i as int]@;
        if keep {
            push_unique(&mut update, changed[i].copy());
        }
        assert(path_views(changed@.take(i + 1)) =~= path_views(changed@.take(i as int)).push(ci));
        assert forall|c: Seq<Seq<char>>| #[trigger] path_views(update@).contains(c) <==> (path_views(
            changed@.take(i + 1),
        ).contains(c) && !path_views(deleted@).contains(c)) by {
            let prev = path_views(changed@.take(i as int));
            let next = path_views(changed@.take(i + 1));
            if prev.contains(c) {
                let j = choose|j: int| 0 <= j < prev.len() && prev[j] == c;
                assert(next[j] == c);
            }
            if c == ci {
                assert(next[i as int] == c);
            }
            if next.contains(c) {
                let j = choose|j: int| 0 <= j < next.len() && next[j] == c;
                if j < i {
                    assert(prev[j] == c);
                }
            }
        }
        i = i + 1;
    }
    assert(changed@.take(changed@.len() as int) =~= changed@);
    let rebuild_graph = deleted.len() > 0;
    DeletionEffects { contents_to_update: update, contents_to_be_deleted: deleted, rebuild_graph }
}

/// Some root of the workspace contains `path`.
pub open spec fn in_workspace(roots: Seq<AbsPath>, path: Seq<Seq<char>>) -> bool {
    exists|i: int| 0 <= i < roots.len() && is_path_prefix(#[trigger] roots[i]@, path)
}

/// A saved document that the save handler can classify: a script file, or
/// a file with a name, which is the manifest or has an extension.
pub open spec fn save_classifiable(path: Seq<Seq<char>>) -> bool {
    path_extension(path) == Some(script_extension()) || (path.len() > 0 && (path.last() == manifest_name_v()
        || path_extension(path) is Some))
}

/// What the save of the document at `doc` asks for: a saved script gets
/// the source tree of its content scanned anew; a saved manifest or REDkit
/// project file in the workspace gets the graph built anew.
pub fn save_effects(graph: &ContentGraph, workspace_roots: &Vec<AbsPath>, doc: &AbsPath) -> (r: SaveEffects)
    requires
        save_classifiable(doc@),
    ensures
        path_extension(doc@) == Some(script_extension()) ==> !r.rebuild_graph && (r.rescan is None
            <==> first_containing(graph.nodes@, doc@, 0) is None) && (r.rescan is Some
            ==> first_containing(graph.nodes@, doc@, 0) == Some(r.rescan->0@)),
        path_extension(doc@) != Some(script_extension()) ==> r.rescan is None && r.rebuild_graph == ((doc@.last()
            == manifest_name_v() || path_extension(doc@) == Some(redkit_extension_v())) && in_workspace(
            workspace_roots@,
            doc@,
        )),
{
    let mut belongs = false;
    let mut i: usize = 0;
    while i < workspace_roots.len()
        invariant
            i <= workspace_roots@.len(),
            belongs == exists|j: int| 0 <= j < i && is_path_prefix(#[trigger] workspace_roots@[j]@, doc@),
        decreases workspace_roots@.len() - i,
    {
        if doc.starts_with(&workspace_roots[i]) {
            belongs = true;
        }
        i = i + 1;
    }
    if is_script_file(doc) {
        SaveEffects { rescan: graph.strip_content_path_prefix(doc), rebuild_graph: false }
    } else {
        let project_file = is_manifest_path(doc) || is_redkit_path(doc);
        SaveEffects { rescan: None, rebuild_graph: project_file && belongs }
    }
}

/// `s` without the paths that `removed` holds, in the same order.
pub open spec fn without_paths(s: Seq<Seq<Seq<char>>>, removed: Seq<Seq<Seq<char>>>) -> Seq<Seq<Seq<char>>>
    decreases s.len(),
{
    if s.len() == 0 {
        s
    } else {
        let rest = without_paths(s.drop_last(), removed);
        if removed.contains(s.last()) {
            rest
        } else {
            rest.push(s.last())
        }
    }
}

/// Takes the folders that the client removed out of the workspace roots
/// and appends those it added.
pub fn update_workspace_roots(roots: &mut Vec<AbsPath>, added: Vec<AbsPath>, removed: &Vec<AbsPath>)
    ensures
        path_views(final(roots)@) == without_paths(path_views(old(roots)@), path_views(removed@)) + path_views(
            added@,
        ),
{
    let mut kept: Vec<AbsPath> = Vec::new();
    let mut i: usize = 0;
    while i < roots.len()
        invariant
            i <= roots@.len(),
            path_views(kept@) == without_paths(path_views(roots@.take(i as int)), path_views(removed@)),
        decreases roots@.len() - i,
    {
        assert(path_views(roots@.take(i + 1)).drop_last() =~= path_views(roots@.take(i as int)));
        assert(path_views(roots@.take(i + 1)).last() == roots@[i as int]@);
        if !contains_path(removed, &roots[i]) {
            let ghost before = kept@;
            kept.push(roots[i].copy());
            assert(path_views(kept@) =~= path_views(before).push(roots@[i as int]@));
        }
        i = i + 1;
    }
    assert(roots@.take(roots@.len() as int) =~= roots@);
    let ghost kept_v = kept@;
    let ghost added_v = added@;
    let mut added = added;
    kept.append(&mut added);
    assert(path_views(kept@) =~= path_views(kept_v) + path_views(added_v));
    *roots = kept;
}

} // verus!
