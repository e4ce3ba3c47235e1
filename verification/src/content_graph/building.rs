//! Building the content graph.
//!
//! A build runs in steps, between which the caller does the file system
//! work that the graph asks for:
//!
//! 1. [`ContentGraph::build_begin`] takes the native content and what the
//!    workspace scanners found, and tells whether repositories are needed;
//! 2. if so, [`ContentGraph::build_add_repositories`] takes what the
//!    repository scanners found;
//! 3. while [`ContentGraph::build_has_next`] holds, the caller probes the
//!    paths that [`ContentGraph::build_dependency_paths`] lists and hands the
//!    outcomes to [`ContentGraph::build_link_next`], which links the
//!    dependencies of the next node;
//! 4. [`ContentGraph::build_finish`] ends the build and tells what changed.

use std::sync::Arc;
use vstd::prelude::*;
use crate::content::{Content, ContentScanError, ProjectDirectory, vanilla_content_name, vanilla_name};
use crate::manifest::{DependencyEntry, DependencyValue};
use crate::ordering::{insertion_order, lex_lt, str_lt, find_insertion_point, lemma_insertion_order_elements, lemma_insertion_order_sorted, lemma_insertion_point_bounds, lemma_lex_lt_irreflexive, lemma_lex_lt_transitive, strict_order_on};
use crate::paths::{AbsPath, PathBufView, PathComponentView, resolve_spec, str_eq};
use crate::text::Range;
use super::{ContentGraph, ContentGraphError, ContentGraphErrorView, GraphEdge, GraphNode, content_in_bounds, edges_valid, nodes_in_bounds, share_content};

verus! {

/// What one scanner found: contents and the errors met on the way.
pub struct ScanOutput {
    pub contents: Vec<Arc<Content>>,
    pub errors: Vec<ContentScanError>,
}

/// What the file system shows at the path of a dependency: whether it
/// exists and, where it does, what trying it as content gives.
pub struct DependencyProbe {
    pub exists: bool,
    pub content: Option<Result<Arc<Content>, ContentScanError>>,
}

/// The parts of the graph that linking changes.
pub struct LinkState {
    pub nodes: Seq<GraphNode>,
    pub edges: Seq<GraphEdge>,
    pub errors: Seq<ContentGraphErrorView>,
    pub repo: Seq<GraphNode>,
}

pub open spec fn with_edge(st: LinkState, e: GraphEdge) -> LinkState {
    LinkState {
        edges: if st.edges.contains(e) {
            st.edges
        } else {
            st.edges.push(e)
        },
        ..st
    }
}

pub open spec fn with_error(st: LinkState, err: ContentGraphErrorView) -> LinkState {
    LinkState { errors: st.errors.push(err), ..st }
}

pub open spec fn edge(a: int, b: int, priority: int) -> GraphEdge {
    GraphEdge { dependant_idx: a as usize, dependency_idx: b as usize, priority: priority as i32 }
}

/// Index of the first node with the given path, or -1.
pub open spec fn find_path(nodes: Seq<GraphNode>, path: Seq<Seq<char>>) -> int
    decreases nodes.len(),
{
    if nodes.len() == 0 {
        -1
    } else {
        let r = find_path(nodes.drop_last(), path);
        if r >= 0 {
            r
        } else if nodes.last().path_v() == path {
            nodes.len() - 1
        } else {
            -1
        }
    }
}

/// Index of the first native node, or -1.
pub open spec fn find_native(nodes: Seq<GraphNode>) -> int
    decreases nodes.len(),
{
    if nodes.len() == 0 {
        -1
    } else {
        let r = find_native(nodes.drop_last());
        if r >= 0 {
            r
        } else if nodes.last().is_native {
            nodes.len() - 1
        } else {
            -1
        }
    }
}

/// Indices of nodes that come from a repository and carry the name.
pub open spec fn repo_name_matches(nodes: Seq<GraphNode>, name: Seq<char>) -> Seq<int>
    decreases nodes.len(),
{
    if nodes.len() == 0 {
        Seq::empty()
    } else {
        let r = repo_name_matches(nodes.drop_last(), name);
        if nodes.last().in_repository && nodes.last().name_v() == name {
            r.push(nodes.len() - 1)
        } else {
            r
        }
    }
}

/// Indices of nodes that carry the name.
pub open spec fn name_matches(nodes: Seq<GraphNode>, name: Seq<char>) -> Seq<int>
    decreases nodes.len(),
{
    if nodes.len() == 0 {
        Seq::empty()
    } else {
        let r = name_matches(nodes.drop_last(), name);
        if nodes.last().name_v() == name {
            r.push(nodes.len() - 1)
        } else {
            r
        }
    }
}

pub open spec fn paths_at(nodes: Seq<GraphNode>, idxs: Seq<int>) -> Seq<Seq<Seq<char>>> {
    idxs.map_values(|i: int| nodes[i].path_v())
}

/// Looking a dependency up by name: the one repository content in the graph
/// with that name; failing that, the one waiting repository content with it,
/// which then enters the graph. Otherwise the paths of all that match.
pub open spec fn by_name(st: LinkState, name: Seq<char>) -> (LinkState, Result<int, Seq<Seq<Seq<char>>>>) {
    let c1 = repo_name_matches(st.nodes, name);
    if c1.len() == 1 {
        (st, Ok(c1[0]))
    } else if c1.len() > 1 {
        (st, Err(paths_at(st.nodes, c1)))
    } else {
        let c2 = name_matches(st.repo, name);
        if c2.len() == 0 {
            (st, Err(Seq::empty()))
        } else if c2.len() == 1 {
            (LinkState { nodes: st.nodes.push(st.repo[c2[0]]), repo: st.repo.remove(c2[0]), ..st }, Ok(st.nodes.len() as int))
        } else {
            (st, Err(paths_at(st.repo, c2)))
        }
    }
}

/// Looking a dependency up by path: the first node in the graph with it;
/// failing that, the first waiting repository content with it, which then
/// enters the graph.
pub open spec fn by_path(st: LinkState, path: Seq<Seq<char>>) -> (LinkState, Option<int>) {
    let i = find_path(st.nodes, path);
    if i >= 0 {
        (st, Some(i))
    } else {
        let j = find_path(st.repo, path);
        if j >= 0 {
            (LinkState { nodes: st.nodes.push(st.repo[j]), repo: st.repo.remove(j), ..st }, Some(st.nodes.len() as int))
        } else {
            (st, None)
        }
    }
}

/// Linking node `node_idx` to the dependency called `name` that comes from a
/// repository.
pub open spec fn link_from_repo(st: LinkState, node_idx: int, manifest_path: Seq<Seq<char>>, name: Seq<char>, range: Range, priority: int) -> LinkState {
    let (st2, res) = by_name(st, name);
    match res {
        Ok(dep) => if dep == node_idx {
            with_error(st2, ContentGraphErrorView::SelfDependency { manifest_path, manifest_range: range })
        } else {
            with_edge(st2, edge(node_idx, dep, priority))
        },
        Err(paths) => if paths.len() == 0 {
            with_error(st2, ContentGraphErrorView::DependencyNameNotFound { content_name: name, manifest_path, manifest_range: range })
        } else {
            with_error(st2, ContentGraphErrorView::MultipleMatchingDependencies { content_name: name, manifest_path, manifest_range: range, matching_paths: paths })
        },
    }
}

pub open spec fn path_view_of(p: Seq<Seq<char>>) -> PathBufView {
    PathBufView { is_absolute: true, components: p.map_values(|s: Seq<char>| PathComponentView::Normal(s)) }
}

pub open spec fn new_node(c: Arc<Content>) -> GraphNode {
    GraphNode { content: c, in_workspace: false, in_repository: false, is_native: false }
}

/// Linking node `node_idx` to the dependency called `name` that the
/// manifest locates by `written` (read from the node's own directory), with
/// `probe` telling what is there.
pub open spec fn link_from_path(
    st: LinkState,
    node_idx: int,
    manifest_path: Seq<Seq<char>>,
    name: Seq<char>,
    name_range: Range,
    written: PathBufView,
    value_range: Range,
    priority: int,
    probe: DependencyProbe,
) -> LinkState {
    let dep_path = resolve_spec(written, st.nodes[node_idx].path_v());
    if !probe.exists {
        with_error(st, ContentGraphErrorView::DependencyPathNotFound { content_path: written, manifest_path, manifest_range: value_range })
    } else {
        let (st2, found) = by_path(st, dep_path);
        match found {
            Some(dep) => {
                let st3 = if st2.nodes[dep].name_v() != name {
                    with_error(st2, ContentGraphErrorView::DependencyNameNotFoundAtPath { content_name: name, manifest_path, manifest_range: name_range })
                } else {
                    st2
                };
                let st4 = if node_idx == dep {
                    with_error(st3, ContentGraphErrorView::SelfDependency { manifest_path, manifest_range: name_range })
                } else {
                    st3
                };
                with_edge(st4, edge(node_idx, dep, priority))
            },
            None => match probe.content {
                Some(Ok(c)) => if c.name_v() == name {
                    with_edge(LinkState { nodes: st2.nodes.push(new_node(c)), ..st2 }, edge(node_idx, st2.nodes.len() as int, priority))
                } else {
                    with_error(st2, ContentGraphErrorView::DependencyNameNotFoundAtPath { content_name: name, manifest_path, manifest_range: name_range })
                },
                Some(Err(e)) => match e {
                    ContentScanError::Io(fe) => with_error(st2, ContentGraphErrorView::Io(fe)),
                    ContentScanError::ManifestRead(fe) => with_error(st2, ContentGraphErrorView::ManifestRead(fe)),
                    ContentScanError::RedkitManifestRead(fe) => with_error(st2, ContentGraphErrorView::RedkitManifestRead(fe)),
                    ContentScanError::NotContent => with_error(st2, ContentGraphErrorView::DependencyPathNotFound { content_path: path_view_of(dep_path), manifest_path, manifest_range: value_range }),
                },
                None => st2,
            },
        }
    }
}

/// Strict name order between positions of a dependency list.
pub open spec fn name_lt(deps: Seq<DependencyEntry>) -> spec_fn(int, int) -> bool {
    |a: int, b: int| lex_lt(deps[a].name@, deps[b].name@)
}

/// Dependency positions sorted by name, stably.
pub open spec fn dep_order(deps: Seq<DependencyEntry>) -> Seq<int> {
    insertion_order(deps.len(), name_lt(deps))
}

/// How many of the first `p` dependencies in sorted order are not the
/// vanilla content: the automatic priority of the next one.
pub open spec fn count_auto(deps: Seq<DependencyEntry>, order: Seq<int>, p: int) -> int
    decreases p,
{
    if p <= 0 {
        0
    } else {
        count_auto(deps, order, p - 1) + if deps[order[p - 1]].name@ == vanilla_name() {
            0int
        } else {
            1int
        }
    }
}

/// How many of the first `p` dependencies in sorted order are given by path.
pub open spec fn count_paths(deps: Seq<DependencyEntry>, order: Seq<int>, p: int) -> int
    decreases p,
{
    if p <= 0 {
        0
    } else {
        count_paths(deps, order, p - 1) + if deps[order[p - 1]].value is FromPath {
            1int
        } else {
            0int
        }
    }
}

/// Priority of the dependency at position `p` in sorted order: the native
/// content's dependencies take the native priority, the vanilla content the
/// vanilla priority, and the others count up from zero in name order.
pub open spec fn dep_priority(is_native: bool, deps: Seq<DependencyEntry>, order: Seq<int>, p: int) -> int {
    if is_native {
        999
    } else if deps[order[p]].name@ == vanilla_name() {
        998
    } else {
        count_auto(deps, order, p)
    }
}

/// Linking the dependency at position `p` in sorted order.
pub open spec fn link_dep(st: LinkState, node_idx: int, is_native: bool, proj: ProjectDirectory, probes: Seq<DependencyProbe>, p: int) -> LinkState {
    let deps = proj.manifest.dependencies.0@;
    let order = dep_order(deps);
    let d = deps[order[p]];
    let priority = dep_priority(is_native, deps, order, p);
    match d.value {
        DependencyValue::FromRepo(active) => if active {
            link_from_repo(st, node_idx, proj.manifest_path@, d.name@, d.name_range, priority)
        } else {
            st
        },
        DependencyValue::FromPath { path } => link_from_path(st, node_idx, proj.manifest_path@, d.name@, d.name_range, path@, d.value_range, priority, probes[count_paths(deps, order, p)]),
    }
}

/// Linking the first `p` dependencies in sorted order.
pub open spec fn link_deps_upto(st: LinkState, node_idx: int, is_native: bool, proj: ProjectDirectory, probes: Seq<DependencyProbe>, p: nat) -> LinkState
    decreases p,
{
    if p == 0 {
        st
    } else {
        link_dep(link_deps_upto(st, node_idx, is_native, proj, probes, (p - 1) as nat), node_idx, is_native, proj, probes, p - 1)
    }
}

/// The vanilla content and the native content depend on each other.
pub open spec fn link_native(st: LinkState, node_idx: int, is_vanilla: bool) -> LinkState {
    if is_vanilla {
        let ni = find_native(st.nodes);
        if ni >= 0 {
            with_edge(with_edge(st, edge(node_idx, ni, 999)), edge(ni, node_idx, 998))
        } else {
            st
        }
    } else {
        st
    }
}

/// Linking all dependencies of node `node_idx`: those its manifest lists
/// (a project), the vanilla content (a REDkit project), and the link
/// between vanilla and native content.
pub open spec fn link_node(st: LinkState, node_idx: int, probes: Seq<DependencyProbe>) -> LinkState {
    let n = st.nodes[node_idx];
    let st1 = match *n.content {
        Content::Project(p) => link_deps_upto(st, node_idx, n.is_native, p, probes, p.manifest.dependencies.0@.len()),
        Content::RedkitProject(r) => link_from_repo(st, node_idx, r.manifest_path@, vanilla_name(), Range::zero_spec(), 998),
        Content::Raw(_) => st,
    };
    link_native(st1, node_idx, n.name_v() == vanilla_name())
}

/// Paths (read from the node's directory) of the first `p` dependencies in
/// sorted order that are given by path.
pub open spec fn path_requests_upto(node_path: Seq<Seq<char>>, deps: Seq<DependencyEntry>, order: Seq<int>, p: int) -> Seq<Seq<Seq<char>>>
    decreases p,
{
    if p <= 0 {
        Seq::empty()
    } else {
        let r = path_requests_upto(node_path, deps, order, p - 1);
        match deps[order[p - 1]].value {
            DependencyValue::FromPath { path } => r.push(resolve_spec(path@, node_path)),
            _ => r,
        }
    }
}

/// The paths that linking node `node_idx` needs probed, in order.
pub open spec fn path_requests(nodes: Seq<GraphNode>, node_idx: int) -> Seq<Seq<Seq<char>>> {
    match *nodes[node_idx].content {
        Content::Project(p) => {
            let deps = p.manifest.dependencies.0@;
            path_requests_upto(nodes[node_idx].path_v(), deps, dep_order(deps), deps.len() as int)
        },
        _ => Seq::empty(),
    }
}


/// A probe whose content, if any, fits the graph's bounds.
pub open spec fn probe_in_bounds(probe: DependencyProbe) -> bool {
    probe.content matches Some(Ok(c)) ==> content_in_bounds(*c)
}

pub open spec fn probes_in_bounds(probes: Seq<DependencyProbe>) -> bool {
    forall|i: int| 0 <= i < probes.len() ==> probe_in_bounds(#[trigger] probes[i])
}

pub open spec fn link_inv(st: LinkState) -> bool {
    &&& edges_valid(st.nodes.len() as int, st.edges)
    &&& st.edges.no_duplicates()
    &&& nodes_in_bounds(st.nodes)
    &&& nodes_in_bounds(st.repo)
}

/// The graph keeps all but the parts that linking changes.
pub open spec fn keeps_all_but_links(old: ContentGraph, new: ContentGraph) -> bool {
    new == ContentGraph { nodes: new.nodes, edges: new.edges, errors: new.errors, repo_nodes: new.repo_nodes, ..old }
}

/// Nodes are only ever added at the end.
pub open spec fn extends_nodes(old: Seq<GraphNode>, new: Seq<GraphNode>) -> bool {
    old.len() <= new.len() && new.subrange(0, old.len() as int) == old
}

pub proof fn lemma_extends_nodes_trans(a: Seq<GraphNode>, b: Seq<GraphNode>, c: Seq<GraphNode>)
    requires
        extends_nodes(a, b),
        extends_nodes(b, c),
    ensures
        extends_nodes(a, c),
{
    assert(c.subrange(0, a.len() as int) =~= b.subrange(0, a.len() as int));
}

pub proof fn lemma_count_paths_bounds(deps: Seq<DependencyEntry>, order: Seq<int>, p: int, q: int)
    requires
        0 <= p <= q,
    ensures
        count_paths(deps, order, p) <= count_paths(deps, order, q),
        0 <= count_paths(deps, order, p) <= p,
    decreases q,
{
    if q > p {
        lemma_count_paths_bounds(deps, order, p, q - 1);
    }
    if p > 0 && q == p {
        lemma_count_paths_bounds(deps, order, p - 1, p - 1);
    }
}

pub proof fn lemma_count_auto_bounds(deps: Seq<DependencyEntry>, order: Seq<int>, p: int)
    requires
        0 <= p,
    ensures
        0 <= count_auto(deps, order, p) <= p,
    decreases p,
{
    if p > 0 {
        lemma_count_auto_bounds(deps, order, p - 1);
    }
}

pub proof fn lemma_path_requests_len(node_path: Seq<Seq<char>>, deps: Seq<DependencyEntry>, order: Seq<int>, p: int)
    requires
        0 <= p,
    ensures
        path_requests_upto(node_path, deps, order, p).len() == count_paths(deps, order, p),
    decreases p,
{
    if p > 0 {
        lemma_path_requests_len(node_path, deps, order, p - 1);
    }
}

pub proof fn lemma_find_path_prefix(nodes: Seq<GraphNode>, path: Seq<Seq<char>>, k: int)
    requires
        0 < k <= nodes.len(),
        find_path(nodes.take(k - 1), path) == -1,
        nodes[k - 1].path_v() == path,
    ensures
        find_path(nodes, path) == k - 1,
    decreases nodes.len() - k,
{
    assert(nodes.take(k).drop_last() =~= nodes.take(k - 1));
    assert(find_path(nodes.take(k), path) == k - 1);
    if k < nodes.len() {
        lemma_find_path_prefix_keep(nodes, path, k);
    } else {
        assert(nodes.take(k) =~= nodes);
    }
}

/// Once found in a prefix, the first index stays the first in longer prefixes.
pub proof fn lemma_find_path_prefix_keep(nodes: Seq<GraphNode>, path: Seq<Seq<char>>, k: int)
    requires
        0 < k <= nodes.len(),
        find_path(nodes.take(k), path) >= 0,
    ensures
        find_path(nodes, path) == find_path(nodes.take(k), path),
    decreases nodes.len() - k,
{
    if k < nodes.len() {
        assert(nodes.take(k + 1).drop_last() =~= nodes.take(k));
        lemma_find_path_prefix_keep(nodes, path, k + 1);
    } else {
        assert(nodes.take(k) =~= nodes);
    }
}

/// Once found in a prefix, the first native node stays the first.
pub proof fn lemma_find_native_prefix(nodes: Seq<GraphNode>, k: int)
    requires
        0 < k <= nodes.len(),
        find_native(nodes.take(k)) >= 0,
    ensures
        find_native(nodes) == find_native(nodes.take(k)),
    decreases nodes.len() - k,
{
    if k < nodes.len() {
        assert(nodes.take(k + 1).drop_last() =~= nodes.take(k));
        lemma_find_native_prefix(nodes, k + 1);
    } else {
        assert(nodes.take(k) =~= nodes);
    }
}

pub proof fn lemma_find_path_range(nodes: Seq<GraphNode>, path: Seq<Seq<char>>)
    ensures
        -1 <= find_path(nodes, path) < nodes.len(),
        find_path(nodes, path) >= 0 ==> nodes[find_path(nodes, path)].path_v() == path,
    decreases nodes.len(),
{
    if nodes.len() > 0 {
        lemma_find_path_range(nodes.drop_last(), path);
    }
}

impl ContentGraph {
    pub open spec fn link_state(&self) -> LinkState {
        LinkState {
            nodes: self.nodes@,
            edges: self.edges@,
            errors: self.errors@.map_values(|e: ContentGraphError| e@),
            repo: self.repo_nodes@,
        }
    }

    fn insert_edge(&mut self, e: GraphEdge)
        requires
            link_inv(old(self).link_state()),
            e.dependant_idx < old(self).nodes@.len(),
            e.dependency_idx < old(self).nodes@.len(),
        ensures
            final(self).link_state() == with_edge(old(self).link_state(), e),
            keeps_all_but_links(*old(self), *final(self)),
            link_inv(final(self).link_state()),
            final(self).nodes == old(self).nodes,
    {
        let mut k: usize = 0;
        while k < self.edges.len()
            invariant
                k <= self.edges@.len(),
                *self == *old(self),
                link_inv(self.link_state()),
                forall|j: int| 0 <= j < k ==> self.edges@[j] != e,
            decreases self.edges@.len() - k,
        {
            if self.edges[k] == e {
                assert(self.edges@.contains(e)) by {
                    assert(self.edges@[k as int] == e);
                }
                assert(self.link_state() == old(self).link_state());
                assert(link_inv(self.link_state()));
                return;
            }
            k = k + 1;
        }
        let ghost before = self.edges@;
        assert(!before.contains(e));
        self.edges.push(e);
        assert(self.edges@.no_duplicates()) by {
            assert forall|a: int, b: int| 0 <= a < self.edges@.len() && 0 <= b < self.edges@.len() && a != b implies self.edges@[a] != self.edges@[b] by {
                if a < before.len() && b < before.len() {
                    assert(self.edges@[a] == before[a] && self.edges@[b] == before[b]);
                } else if a < before.len() {
                    assert(self.edges@[a] == before[a]);
                } else {
                    assert(self.edges@[b] == before[b]);
                }
            }
        }
    }

    fn push_error(&mut self, err: ContentGraphError)
        ensures
            final(self).link_state() == with_error(old(self).link_state(), err@),
            keeps_all_but_links(*old(self), *final(self)),
            final(self).nodes == old(self).nodes,
            final(self).edges == old(self).edges,
            final(self).repo_nodes == old(self).repo_nodes,
    {
        let ghost before = self.errors@;
        self.errors.push(err);
        assert(self.errors@.map_values(|e: ContentGraphError| e@) =~= before.map_values(|e: ContentGraphError| e@).push(err@));
    }

    /// Returns the index of this node
    fn insert_node(&mut self, node: GraphNode) -> (r: usize)
        requires
            link_inv(old(self).link_state()),
            content_in_bounds(*node.content),
        ensures
            final(self).link_state() == (LinkState { nodes: old(self).nodes@.push(node), ..old(self).link_state() }),
            keeps_all_but_links(*old(self), *final(self)),
            link_inv(final(self).link_state()),
            r == old(self).nodes@.len(),
            final(self).edges == old(self).edges,
            final(self).errors == old(self).errors,
            final(self).repo_nodes == old(self).repo_nodes,
    {
        self.nodes.push(node);
        self.nodes.len() - 1
    }

    /// If there is just one repository content with the name returns Ok with the index.
    /// Otherwise returns Err with the Vec of matching content paths.
    fn get_dependency_node_index_by_name(&mut self, name: &str) -> (r: Result<usize, Vec<AbsPath>>)
        requires
            link_inv(old(self).link_state()),
        ensures
            final(self).link_state() == by_name(old(self).link_state(), name@).0,
            match by_name(old(self).link_state(), name@).1 {
                Ok(i) => r is Ok && r->Ok_0 as int == i,
                Err(ps) => r is Err && r->Err_0@.map_values(|p: AbsPath| p@) == ps,
            },
            keeps_all_but_links(*old(self), *final(self)),
            link_inv(final(self).link_state()),
            extends_nodes(old(self).nodes@, final(self).nodes@),
            final(self).edges == old(self).edges,
            final(self).errors == old(self).errors,
            r is Ok ==> r->Ok_0 < final(self).nodes@.len(),
    {
        let ghost st = self.link_state();
        let mut candidates: Vec<usize> = Vec::new();
        let mut i: usize = 0;
        while i < self.nodes.len()
            invariant
                i <= self.nodes@.len(),
                self.link_state() == st,
                candidates@.map_values(|x: usize| x as int) == repo_name_matches(self.nodes@.take(i as int), name@),
                forall|q: int| 0 <= q < candidates@.len() ==> #[trigger] candidates@[q] < i,
            decreases self.nodes@.len() - i,
        {
            assert(self.nodes@.take(i + 1).drop_last() =~= self.nodes@.take(i as int));
            let ghost before = candidates@;
            let n = &self.nodes[i];
            if n.in_repository && str_eq(n.content.content_name(), name) {
                candidates.push(i);
                assert(candidates@.map_values(|x: usize| x as int) =~= before.map_values(|x: usize| x as int).push(i as int));
            }
            i = i + 1;
        }
        assert(self.nodes@.take(self.nodes@.len() as int) =~= self.nodes@);
        let ghost c1 = candidates@.map_values(|x: usize| x as int);
        let candidates_len = candidates.len();
        if candidates_len == 1 {
            assert(c1[0] == candidates@[0] as int);
            return Ok(candidates[0]);
        } else if candidates_len > 1 {
            let mut paths: Vec<AbsPath> = Vec::new();
            let mut k: usize = 0;
            while k < candidates.len()
                invariant
                    k <= candidates@.len(),
                    self.link_state() == st,
                    c1 == candidates@.map_values(|x: usize| x as int),
                    forall|q: int| 0 <= q < candidates@.len() ==> #[trigger] candidates@[q] < self.nodes@.len(),
                    paths@.len() == k,
                    forall|q: int| 0 <= q < k ==> (#[trigger] paths@[q])@ == self.nodes@[candidates@[q] as int].path_v(),
                decreases candidates@.len() - k,
            {
                paths.push(self.nodes[candidates[k]].content.path().copy());
                k = k + 1;
            }
            assert(paths@.map_values(|p: AbsPath| p@) =~= paths_at(st.nodes, c1)) by {
                assert forall|q: int| 0 <= q < paths@.len() implies paths@.map_values(|p: AbsPath| p@)[q] == paths_at(st.nodes, c1)[q] by {
                    assert(c1[q] == candidates@[q] as int);
                }
            }
            return Err(paths);
        }
        // none in the graph: look among the waiting repository contents
        let mut repo_candidates: Vec<usize> = Vec::new();
        let mut i: usize = 0;
        while i < self.repo_nodes.len()
            invariant
                i <= self.repo_nodes@.len(),
                self.link_state() == st,
                repo_candidates@.map_values(|x: usize| x as int) == name_matches(self.repo_nodes@.take(i as int), name@),
                forall|q: int| 0 <= q < repo_candidates@.len() ==> #[trigger] repo_candidates@[q] < i,
            decreases self.repo_nodes@.len() - i,
        {
            assert(self.repo_nodes@.take(i + 1).drop_last() =~= self.repo_nodes@.take(i as int));
            let ghost before = repo_candidates@;
            if str_eq(self.repo_nodes[i].content.content_name(), name) {
                repo_candidates.push(i);
                assert(repo_candidates@.map_values(|x: usize| x as int) =~= before.map_values(|x: usize| x as int).push(i as int));
            }
            i = i + 1;
        }
        assert(self.repo_nodes@.take(self.repo_nodes@.len() as int) =~= self.repo_nodes@);
        let ghost c2 = repo_candidates@.map_values(|x: usize| x as int);
        let n2 = repo_candidates.len();
        if n2 == 0 {
            let r: Vec<AbsPath> = Vec::new();
            assert(r@.map_values(|p: AbsPath| p@) =~= Seq::<Seq<Seq<char>>>::empty());
            Err(r)
        } else if n2 == 1 {
            assert(c2[0] == repo_candidates@[0] as int);
            let target_node = self.repo_nodes.remove(repo_candidates[0]);
            let target_node_idx = self.insert_node(target_node);
            assert(self.nodes@.subrange(0, st.nodes.len() as int) =~= st.nodes);
            Ok(target_node_idx)
        } else {
            let mut paths: Vec<AbsPath> = Vec::new();
            let mut k: usize = 0;
            while k < repo_candidates.len()
                invariant
                    k <= repo_candidates@.len(),
                    self.link_state() == st,
                    c2 == repo_candidates@.map_values(|x: usize| x as int),
                    forall|q: int| 0 <= q < repo_candidates@.len() ==> #[trigger] repo_candidates@[q] < self.repo_nodes@.len(),
                    paths@.len() == k,
                    forall|q: int| 0 <= q < k ==> (#[trigger] paths@[q])@ == self.repo_nodes@[repo_candidates@[q] as int].path_v(),
                decreases repo_candidates@.len() - k,
            {
                paths.push(self.repo_nodes[repo_candidates[k]].content.path().copy());
                k = k + 1;
            }
            assert(paths@.map_values(|p: AbsPath| p@) =~= paths_at(st.repo, c2)) by {
                assert forall|q: int| 0 <= q < paths@.len() implies paths@.map_values(|p: AbsPath| p@)[q] == paths_at(st.repo, c2)[q] by {
                    assert(c2[q] == repo_candidates@[q] as int);
                }
            }
            Err(paths)
        }
    }

    pub(crate) fn find_path_in(nodes: &Vec<GraphNode>, path: &AbsPath) -> (r: Option<usize>)
        ensures
            find_path(nodes@, path@) >= 0 ==> r is Some && r->0 as int == find_path(nodes@, path@),
            find_path(nodes@, path@) < 0 ==> r is None,
            find_path(nodes@, path@) < nodes@.len(),
    {
        let mut i: usize = 0;
        while i < nodes.len()
            invariant
                i <= nodes@.len(),
                find_path(nodes@.take(i as int), path@) == -1,
            decreases nodes@.len() - i,
        {
            assert(nodes@.take(i + 1).drop_last() =~= nodes@.take(i as int));
            if nodes[i].content.path().eq(path) {
                proof {
                    lemma_find_path_prefix(nodes@, path@, i as int + 1);
                }
                return Some(i);
            }
            i = i + 1;
        }
        assert(nodes@.take(nodes@.len() as int) =~= nodes@);
        None
    }

    fn get_dependency_node_index_by_path(&mut self, path: &AbsPath) -> (r: Option<usize>)
        requires
            link_inv(old(self).link_state()),
        ensures
            final(self).link_state() == by_path(old(self).link_state(), path@).0,
            match by_path(old(self).link_state(), path@).1 {
                Some(i) => r is Some && r->0 as int == i,
                None => r is None,
            },
            keeps_all_but_links(*old(self), *final(self)),
            link_inv(final(self).link_state()),
            extends_nodes(old(self).nodes@, final(self).nodes@),
            final(self).edges == old(self).edges,
            final(self).errors == old(self).errors,
            r is Some ==> r->0 < final(self).nodes@.len(),
    {
        assert(self.nodes@.subrange(0, self.nodes@.len() as int) =~= self.nodes@);
        if let Some(i) = Self::find_path_in(&self.nodes, path) {
            Some(i)
        } else if let Some(i) = Self::find_path_in(&self.repo_nodes, path) {
            let target_node = self.repo_nodes.remove(i);
            let target_node_idx = self.insert_node(target_node);
            assert(self.nodes@.subrange(0, old(self).nodes@.len() as int) =~= old(self).nodes@);
            Some(target_node_idx)
        } else {
            None
        }
    }

    fn link_dependencies_value_from_repo(
        &mut self,
        node_idx: usize,
        manifest_path: &AbsPath,
        dependency_name: &str,
        dependency_name_range: Range,
        priority: i32,
    )
        requires
            link_inv(old(self).link_state()),
            node_idx < old(self).nodes@.len(),
        ensures
            final(self).link_state() == link_from_repo(old(self).link_state(), node_idx as int, manifest_path@, dependency_name@, dependency_name_range, priority as int),
            keeps_all_but_links(*old(self), *final(self)),
            link_inv(final(self).link_state()),
            extends_nodes(old(self).nodes@, final(self).nodes@),
    {
        match self.get_dependency_node_index_by_name(dependency_name) {
            Ok(dep_idx) => {
                if node_idx == dep_idx {
                    self.push_error(ContentGraphError::SelfDependency {
                        manifest_path: manifest_path.copy(),
                        manifest_range: dependency_name_range,
                    });
                    return;
                }
                self.insert_edge(GraphEdge { dependant_idx: node_idx, dependency_idx: dep_idx, priority });
            },
            Err(matching_paths) => {
                if matching_paths.len() == 0 {
                    self.push_error(ContentGraphError::DependencyNameNotFound {
                        content_name: dependency_name.to_owned(),
                        manifest_path: manifest_path.copy(),
                        manifest_range: dependency_name_range,
                    });
                } else {
                    self.push_error(ContentGraphError::MultipleMatchingDependencies {
                        content_name: dependency_name.to_owned(),
                        manifest_path: manifest_path.copy(),
                        manifest_range: dependency_name_range,
                        matching_paths,
                    });
                }
            },
        }
    }

    fn link_dependencies_value_from_path(
        &mut self,
        node_idx: usize,
        manifest_path: &AbsPath,
        dependency_name: &str,
        dependency_name_range: Range,
        dependency_path: &crate::paths::PathBuf,
        dependency_path_range: Range,
        priority: i32,
        probe: DependencyProbe,
    )
        requires
            link_inv(old(self).link_state()),
            node_idx < old(self).nodes@.len(),
            probe_in_bounds(probe),
        ensures
            final(self).link_state() == link_from_path(old(self).link_state(), node_idx as int, manifest_path@, dependency_name@, dependency_name_range, dependency_path@, dependency_path_range, priority as int, probe),
            keeps_all_but_links(*old(self), *final(self)),
            link_inv(final(self).link_state()),
            extends_nodes(old(self).nodes@, final(self).nodes@),
    {
        assert(self.nodes@.subrange(0, self.nodes@.len() as int) =~= self.nodes@);
        let dep_path = AbsPath::resolve(dependency_path, self.nodes[node_idx].content.path());
        if !probe.exists {
            self.push_error(ContentGraphError::DependencyPathNotFound {
                content_path: dependency_path.copy(),
                manifest_path: manifest_path.copy(),
                manifest_range: dependency_path_range,
            });
            return;
        }
        let ghost st0 = self.link_state();
        if let Some(dep_idx) = self.get_dependency_node_index_by_path(&dep_path) {
            let ghost st2 = self.link_state();
            if !str_eq(self.nodes[dep_idx].content.content_name(), dependency_name) {
                self.push_error(ContentGraphError::DependencyNameNotFoundAtPath {
                    content_name: dependency_name.to_owned(),
                    manifest_path: manifest_path.copy(),
                    manifest_range: dependency_name_range,
                });
            }
            if node_idx == dep_idx {
                self.push_error(ContentGraphError::SelfDependency {
                    manifest_path: manifest_path.copy(),
                    manifest_range: dependency_name_range,
                });
            }
            self.insert_edge(GraphEdge { dependant_idx: node_idx, dependency_idx: dep_idx, priority });
            assert(self.nodes@.subrange(0, old(self).nodes@.len() as int) =~= old(self).nodes@);
        } else {
            match probe.content {
                Some(Ok(content)) => {
                    if str_eq(content.content_name(), dependency_name) {
                        let dep_idx = self.insert_node(GraphNode {
                            content,
                            in_workspace: false,
                            in_repository: false,
                            is_native: false,
                        });
                        self.insert_edge(GraphEdge { dependant_idx: node_idx, dependency_idx: dep_idx, priority });
                        assert(self.nodes@.subrange(0, old(self).nodes@.len() as int) =~= old(self).nodes@);
                    } else {
                        self.push_error(ContentGraphError::DependencyNameNotFoundAtPath {
                            content_name: dependency_name.to_owned(),
                            manifest_path: manifest_path.copy(),
                            manifest_range: dependency_name_range,
                        });
                    }
                },
                Some(Err(err)) => {
                    match err {
                        ContentScanError::Io(e) => self.push_error(ContentGraphError::Io(e)),
                        ContentScanError::ManifestRead(e) => self.push_error(ContentGraphError::ManifestRead(e)),
                        ContentScanError::RedkitManifestRead(e) => self.push_error(ContentGraphError::RedkitManifestRead(e)),
                        ContentScanError::NotContent => self.push_error(ContentGraphError::DependencyPathNotFound {
                            content_path: dep_path.to_path_buf(),
                            manifest_path: manifest_path.copy(),
                            manifest_range: dependency_path_range,
                        }),
                    }
                },
                None => {},
            }
        }
    }
}


impl ContentGraph {
    /// Links the dependencies of node `node_idx`: those its manifest lists,
    /// sorted by name (a project), the vanilla content (a REDkit project),
    /// and the link between vanilla and native content. `probes` tells, in
    /// order, what is at each path that [`path_requests`] lists for the node.
    fn link_dependencies(&mut self, node_idx: usize, probes: Vec<DependencyProbe>)
        requires
            link_inv(old(self).link_state()),
            node_idx < old(self).nodes@.len(),
            probes@.len() == path_requests(old(self).nodes@, node_idx as int).len(),
            probes_in_bounds(probes@),
        ensures
            final(self).link_state() == link_node(old(self).link_state(), node_idx as int, probes@),
            keeps_all_but_links(*old(self), *final(self)),
            link_inv(final(self).link_state()),
            extends_nodes(old(self).nodes@, final(self).nodes@),
    {
        let ghost st0 = self.link_state();
        let ghost all_probes = probes@;
        assert(self.nodes@.subrange(0, self.nodes@.len() as int) =~= self.nodes@);
        let content = share_content(&self.nodes[node_idx].content);
        let is_native = self.nodes[node_idx].is_native;
        let mut probes = probes;
        match &*content {
            Content::Project(proj) => {
                let deps = &proj.manifest.dependencies.0;
                let order = stable_order_by_name(deps);
                let ghost ord = dep_order(deps@);
                proof {
                    assert(content_in_bounds(*st0.nodes[node_idx as int].content));
                    lemma_path_requests_len(st0.nodes[node_idx as int].path_v(), deps@, ord, deps@.len() as int);
                }
                let mut auto: i32 = 0;
                let mut p: usize = 0;
                while p < order.len()
                    invariant
                        p <= order@.len(),
                        order@.len() == deps@.len(),
                        *deps == proj.manifest.dependencies.0,
                        deps@.len() <= i32::MAX,
                        order@.map_values(|x: usize| x as int) == ord,
                        ord == dep_order(deps@),
                        forall|q: int| 0 <= q < order@.len() ==> #[trigger] order@[q] < deps@.len(),
                        *content == *st0.nodes[node_idx as int].content,
                        content == st0.nodes[node_idx as int].content,
                        *content == Content::Project(*proj),
                        is_native == st0.nodes[node_idx as int].is_native,
                        node_idx < st0.nodes.len(),
                        link_inv(self.link_state()),
                        keeps_all_but_links(*old(self), *self),
                        st0 == old(self).link_state(),
                        extends_nodes(old(self).nodes@, self.nodes@),
                        self.link_state() == link_deps_upto(st0, node_idx as int, is_native, *proj, all_probes, p as nat),
                        !is_native ==> auto as int == count_auto(deps@, ord, p as int),
                        0 <= auto <= p,
                        all_probes.len() == count_paths(deps@, ord, deps@.len() as int),
                        probes_in_bounds(all_probes),
                        probes@ == all_probes.subrange(count_paths(deps@, ord, p as int), all_probes.len() as int),
                    decreases order@.len() - p,
                {
                    proof {
                        lemma_count_auto_bounds(deps@, ord, p as int);
                        lemma_count_paths_bounds(deps@, ord, p as int, deps@.len() as int);
                        lemma_count_paths_bounds(deps@, ord, p as int + 1, deps@.len() as int);
                        assert(ord[p as int] == order@[p as int] as int);
                    }
                    let ghost st_p = self.link_state();
                    let ghost nodes_p = self.nodes@;
                    assert(nodes_p.subrange(0, nodes_p.len() as int) =~= nodes_p);
                    let d = &deps[order[p]];
                    let priority: i32 = if is_native {
                        999
                    } else if str_eq(d.name.as_str(), vanilla_content_name()) {
                        998
                    } else {
                        let v = auto;
                        auto = auto + 1;
                        v
                    };
                    assert(priority as int == dep_priority(is_native, deps@, ord, p as int));
                    match &d.value {
                        DependencyValue::FromRepo(active) => {
                            if *active {
                                self.link_dependencies_value_from_repo(node_idx, &proj.manifest_path, d.name.as_str(), d.name_range, priority);
                            }
                        },
                        DependencyValue::FromPath { path } => {
                            let ghost before = probes@;
                            let probe = probes.remove(0);
                            proof {
                                assert(probe == all_probes[count_paths(deps@, ord, p as int)]);
                                assert(probes@ =~= all_probes.subrange(count_paths(deps@, ord, p as int) + 1, all_probes.len() as int));
                            }
                            self.link_dependencies_value_from_path(
                                node_idx,
                                &proj.manifest_path,
                                d.name.as_str(),
                                d.name_range,
                                path,
                                d.value_range,
                                priority,
                                probe,
                            );
                        },
                    }
                    proof {
                        assert(self.link_state() == link_dep(st_p, node_idx as int, is_native, *proj, all_probes, p as int));
                        lemma_extends_nodes_trans(old(self).nodes@, nodes_p, self.nodes@);
                    }
                    p = p + 1;
                }
            },
            Content::RedkitProject(redkit_proj) => {
                self.link_dependencies_value_from_repo(node_idx, &redkit_proj.manifest_path, vanilla_content_name(), Range::zero(), 998);
            },
            Content::Raw(_) => {},
        }
        // only content0 gets to be connected to native symbols
        if str_eq(content.content_name(), vanilla_content_name()) {
            let ghost st1 = self.link_state();
            let mut k: usize = 0;
            while k < self.nodes.len() && !self.nodes[k].is_native
                invariant
                    k <= self.nodes@.len(),
                    find_native(self.nodes@.take(k as int)) == -1,
                    self.link_state() == st1,
                decreases self.nodes@.len() - k,
            {
                assert(self.nodes@.take(k + 1).drop_last() =~= self.nodes@.take(k as int));
                k = k + 1;
            }
            if k < self.nodes.len() {
                proof {
                    assert(self.nodes@.take(k + 1).drop_last() =~= self.nodes@.take(k as int));
                    lemma_find_native_prefix(self.nodes@, k as int + 1);
                }
                let native_idx = k;
                self.insert_edge(GraphEdge { dependant_idx: node_idx, dependency_idx: native_idx, priority: 999 });
                self.insert_edge(GraphEdge { dependant_idx: native_idx, dependency_idx: node_idx, priority: 998 });
            } else {
                assert(self.nodes@.take(k as int) =~= self.nodes@);
            }
        }
    }
}

/// The graph errors that a scan error gives: none for a directory that is
/// not content, which a scan only meets on the way.
pub open spec fn scan_error_views(e: ContentScanError) -> Seq<ContentGraphErrorView> {
    match e {
        ContentScanError::Io(fe) => seq![ContentGraphErrorView::Io(fe)],
        ContentScanError::ManifestRead(fe) => seq![ContentGraphErrorView::ManifestRead(fe)],
        ContentScanError::RedkitManifestRead(fe) => seq![ContentGraphErrorView::RedkitManifestRead(fe)],
        ContentScanError::NotContent => Seq::empty(),
    }
}

/// The graph errors that a list of scan errors gives, in order.
pub open spec fn scan_errors(es: Seq<ContentScanError>) -> Seq<ContentGraphErrorView>
    decreases es.len(),
{
    if es.len() == 0 {
        Seq::empty()
    } else {
        scan_errors(es.drop_last()) + scan_error_views(es.last())
    }
}

/// The node of a scanned content: from the workspace, or from a repository.
pub open spec fn scanned_node(c: Arc<Content>, in_workspace: bool) -> GraphNode {
    GraphNode { content: c, in_workspace, in_repository: !in_workspace, is_native: false }
}

/// The nodes of what the scanners found, scanner by scanner, in order.
pub open spec fn outputs_nodes(outs: Seq<ScanOutput>, in_workspace: bool) -> Seq<GraphNode>
    decreases outs.len(),
{
    if outs.len() == 0 {
        Seq::empty()
    } else {
        outputs_nodes(outs.drop_last(), in_workspace) + outs.last().contents@.map_values(
            |c: Arc<Content>| scanned_node(c, in_workspace),
        )
    }
}

/// The graph errors of what the scanners met, scanner by scanner, in order.
pub open spec fn outputs_errors(outs: Seq<ScanOutput>) -> Seq<ContentGraphErrorView>
    decreases outs.len(),
{
    if outs.len() == 0 {
        Seq::empty()
    } else {
        outputs_errors(outs.drop_last()) + scan_errors(outs.last().errors@)
    }
}

/// Every content that the scanners found fits the graph's bounds.
pub open spec fn outputs_in_bounds(outs: Seq<ScanOutput>) -> bool {
    forall|i: int, j: int|
        0 <= i < outs.len() && 0 <= j < outs[i].contents@.len() ==> content_in_bounds(
            *(#[trigger] outs[i].contents@[j]),
        )
}

/// The native node, where a native content path is set and is content.
pub open spec fn native_nodes(path_set: bool, native: Result<Arc<Content>, ContentScanError>) -> Seq<GraphNode> {
    match native {
        Ok(c) => if path_set {
            seq![GraphNode { content: c, in_workspace: false, in_repository: false, is_native: true }]
        } else {
            Seq::empty()
        },
        Err(_) => Seq::empty(),
    }
}

/// The error about native content: no path set, or no content at it.
pub open spec fn native_errors(path_set: bool, native: Result<Arc<Content>, ContentScanError>) -> Seq<ContentGraphErrorView> {
    if !path_set {
        seq![ContentGraphErrorView::NativeContentNotFound(None)]
    } else {
        match native {
            Ok(_) => Seq::empty(),
            Err(e) => seq![ContentGraphErrorView::NativeContentNotFound(Some(e))],
        }
    }
}

/// The linked parts of the graph once a build began: the native node and
/// the workspace contents, no edges, and the errors met so far.
pub open spec fn started_state(
    path_set: bool,
    native: Result<Arc<Content>, ContentScanError>,
    workspace: Seq<ScanOutput>,
) -> LinkState {
    LinkState {
        nodes: native_nodes(path_set, native) + outputs_nodes(workspace, true),
        edges: Seq::empty(),
        errors: native_errors(path_set, native) + outputs_errors(workspace),
        repo: Seq::empty(),
    }
}

/// Some node is in the workspace: only then are dependencies linked.
pub open spec fn links_workspace(nodes: Seq<GraphNode>) -> bool {
    exists|i: int| 0 <= i < nodes.len() && (#[trigger] nodes[i]).in_workspace
}

/// The linked parts once the repository contents were handed over.
pub open spec fn with_repositories(st: LinkState, repos: Seq<ScanOutput>) -> LinkState {
    LinkState {
        nodes: mark_overlap(st.nodes, outputs_nodes(repos, false)),
        edges: st.edges,
        errors: st.errors + outputs_errors(repos),
        repo: kept_repo(st.nodes, outputs_nodes(repos, false)),
    }
}

/// The nodes of scanned contents.
fn scanned_nodes(contents: Vec<Arc<Content>>, in_workspace: bool) -> (r: Vec<GraphNode>)
    ensures
        r@ == contents@.map_values(|c: Arc<Content>| scanned_node(c, in_workspace)),
{
    let ghost all = contents@;
    let mut contents = contents;
    let mut r: Vec<GraphNode> = Vec::new();
    let ghost mut k: int = 0;
    while contents.len() > 0
        invariant
            0 <= k <= all.len(),
            contents@ == all.subrange(k, all.len() as int),
            r@ == all.take(k).map_values(|c: Arc<Content>| scanned_node(c, in_workspace)),
        decreases contents@.len(),
    {
        let c = contents.remove(0);
        proof {
            assert(c == all[k]);
        }
        r.push(GraphNode { content: c, in_workspace, in_repository: !in_workspace, is_native: false });
        proof {
            assert(all.take(k + 1).map_values(|c: Arc<Content>| scanned_node(c, in_workspace)) =~= all.take(k).map_values(
                |c: Arc<Content>| scanned_node(c, in_workspace),
            ).push(scanned_node(all[k], in_workspace)));
            k = k + 1;
        }
        assert(contents@ =~= all.subrange(k, all.len() as int));
    }
    assert(all.take(k) =~= all);
    r
}

/// The graph errors of scan errors.
fn graph_errors(errs: Vec<ContentScanError>) -> (r: Vec<ContentGraphError>)
    ensures
        r@.map_values(|e: ContentGraphError| e@) == scan_errors(errs@),
{
    let ghost all = errs@;
    let mut errs = errs;
    let mut r: Vec<ContentGraphError> = Vec::new();
    let ghost mut k: int = 0;
    while errs.len() > 0
        invariant
            0 <= k <= all.len(),
            errs@ == all.subrange(k, all.len() as int),
            r@.map_values(|e: ContentGraphError| e@) == scan_errors(all.take(k)),
        decreases errs@.len(),
    {
        let e = errs.remove(0);
        let ghost before = r@;
        proof {
            assert(e == all[k]);
            assert(all.take(k + 1).drop_last() =~= all.take(k));
        }
        match e {
            ContentScanError::Io(fe) => r.push(ContentGraphError::Io(fe)),
            ContentScanError::ManifestRead(fe) => r.push(ContentGraphError::ManifestRead(fe)),
            ContentScanError::RedkitManifestRead(fe) => r.push(ContentGraphError::RedkitManifestRead(fe)),
            // only met on the way while scanning
            ContentScanError::NotContent => {},
        }
        proof {
            assert(r@.map_values(|e: ContentGraphError| e@) =~= before.map_values(|e: ContentGraphError| e@) + scan_error_views(all[k]));
            k = k + 1;
        }
        assert(errs@ =~= all.subrange(k, all.len() as int));
    }
    assert(all.take(k) =~= all);
    r
}

/// The nodes and errors of what the scanners found.
fn take_scan_outputs(outs: Vec<ScanOutput>, in_workspace: bool) -> (r: (Vec<GraphNode>, Vec<ContentGraphError>))
    requires
        outputs_in_bounds(outs@),
    ensures
        r.0@ == outputs_nodes(outs@, in_workspace),
        r.1@.map_values(|e: ContentGraphError| e@) == outputs_errors(outs@),
        nodes_in_bounds(r.0@),
{
    let ghost all = outs@;
    let mut outs = outs;
    let mut nodes: Vec<GraphNode> = Vec::new();
    let mut errors: Vec<ContentGraphError> = Vec::new();
    let ghost mut k: int = 0;
    while outs.len() > 0
        invariant
            0 <= k <= all.len(),
            outs@ == all.subrange(k, all.len() as int),
            nodes@ == outputs_nodes(all.take(k), in_workspace),
            errors@.map_values(|e: ContentGraphError| e@) == outputs_errors(all.take(k)),
            nodes_in_bounds(nodes@),
            outputs_in_bounds(all),
        decreases outs@.len(),
    {
        let out = outs.remove(0);
        proof {
            assert(out == all[k]);
            assert(all.take(k + 1).drop_last() =~= all.take(k));
        }
        let ghost nodes_before = nodes@;
        let ghost errors_before = errors@;
        let ScanOutput { contents, errors: errs } = out;
        let mut found = scanned_nodes(contents, in_workspace);
        let mut met = graph_errors(errs);
        nodes.append(&mut found);
        errors.append(&mut met);
        proof {
            assert(errors@.map_values(|e: ContentGraphError| e@) =~= errors_before.map_values(|e: ContentGraphError| e@)
                + scan_errors(all[k].errors@));
            assert forall|i: int| 0 <= i < nodes@.len() implies content_in_bounds(*(#[trigger] nodes@[i]).content) by {
                if i >= nodes_before.len() {
                    assert(nodes@[i].content == all[k].contents@[i - nodes_before.len()]);
                }
            }
            k = k + 1;
        }
        assert(outs@ =~= all.subrange(k, all.len() as int));
    }
    assert(all.take(k) =~= all);
    (nodes, errors)
}

impl ContentGraph {
    /// Begins a build (its first step). The graph forgets its nodes, edges
    /// and errors, keeping the nodes and edges it had for the difference at
    /// the build's end (those before the build in progress, if one was
    /// cut short). It takes the native content (`native`: what trying the
    /// native content path as content gave; not read where no path is set)
    /// and then what the workspace scanners found. Returns whether the
    /// workspace holds any content: only then are repositories needed and
    /// dependencies linked.
    pub fn build_begin(&mut self, native: Result<Arc<Content>, ContentScanError>, workspace: Vec<ScanOutput>) -> (r: bool)
        requires
            old(self).well_formed(),
            outputs_in_bounds(workspace@),
            native matches Ok(c) ==> content_in_bounds(*c),
        ensures
            final(self).well_formed(),
            final(self).nodes@ == native_nodes(old(self).native_content_path is Some, native) + outputs_nodes(workspace@, true),
            final(self).edges@.len() == 0,
            final(self).errors@.map_values(|e: ContentGraphError| e@) == native_errors(old(self).native_content_path is Some, native)
                + outputs_errors(workspace@),
            final(self).prev_nodes@ == if old(self).building { old(self).prev_nodes@ } else { old(self).nodes@ },
            final(self).prev_edges@ == if old(self).building { old(self).prev_edges@ } else { old(self).edges@ },
            final(self).repo_nodes@.len() == 0,
            r == exists|i: int| 0 <= i < final(self).nodes@.len() && (#[trigger] final(self).nodes@[i]).in_workspace,
            final(self).building,
            final(self).linking == r,
            !final(self).repos_added,
            final(self).next_node == 0,
            final(self).repo_scanners == old(self).repo_scanners,
            final(self).workspace_scanners == old(self).workspace_scanners,
            final(self).native_content_path == old(self).native_content_path,
            final(self).link_state() == started_state(old(self).native_content_path is Some, native, workspace@),
            r == links_workspace(final(self).nodes@),
    {
        if !self.building {
            std::mem::swap(&mut self.prev_nodes, &mut self.nodes);
            std::mem::swap(&mut self.prev_edges, &mut self.edges);
        }
        self.nodes.clear();
        self.edges.clear();
        self.errors.clear();
        self.repo_nodes.clear();
        self.building = true;
        self.repos_added = false;
        self.next_node = 0;
        let path_set = self.native_content_path.is_some();
        if path_set {
            match native {
                Ok(c) => {
                    self.nodes.push(GraphNode { content: c, in_workspace: false, in_repository: false, is_native: true });
                },
                Err(e) => {
                    self.errors.push(ContentGraphError::NativeContentNotFound(Some(e)));
                },
            }
        } else {
            self.errors.push(ContentGraphError::NativeContentNotFound(None));
        }
        let ghost native_part = self.nodes@;
        let ghost native_errs = self.errors@;
        assert(native_part == native_nodes(path_set, native));
        assert(native_errs.map_values(|e: ContentGraphError| e@) =~= native_errors(path_set, native));
        let (mut found, mut met) = take_scan_outputs(workspace, true);
        let ghost found_v = found@;
        let ghost met_v = met@;
        self.nodes.append(&mut found);
        self.errors.append(&mut met);
        assert(self.errors@.map_values(|e: ContentGraphError| e@) =~= native_errs.map_values(|e: ContentGraphError| e@)
            + met_v.map_values(|e: ContentGraphError| e@));
        // do not try finding dependencies etc. if workspace scanners returned no contents
        let mut linking = false;
        let mut i: usize = 0;
        while i < self.nodes.len() && !linking
            invariant
                i <= self.nodes@.len(),
                linking == exists|j: int| 0 <= j < i && (#[trigger] self.nodes@[j]).in_workspace,
            decreases self.nodes@.len() - i,
        {
            if self.nodes[i].in_workspace {
                linking = true;
            }
            i = i + 1;
        }
        self.linking = linking;
        proof {
            assert forall|j: int| 0 <= j < self.nodes@.len() implies content_in_bounds(*(#[trigger] self.nodes@[j]).content) by {
                if j >= native_part.len() {
                    assert(self.nodes@[j] == found_v[j - native_part.len()]);
                }
            }
        }
        linking
    }
}

/// The node marked as found in a repository too.
pub open spec fn marked(n: GraphNode) -> GraphNode {
    GraphNode { in_repository: true, ..n }
}

/// For each repository content in turn, the first graph node with its path
/// gets marked as found in a repository.
pub open spec fn mark_overlap(nodes: Seq<GraphNode>, repo: Seq<GraphNode>) -> Seq<GraphNode>
    decreases repo.len(),
{
    if repo.len() == 0 {
        nodes
    } else {
        let prev = mark_overlap(nodes, repo.drop_last());
        let j = find_path(nodes, repo.last().path_v());
        if j >= 0 {
            prev.update(j, marked(prev[j]))
        } else {
            prev
        }
    }
}

/// The repository contents whose path no graph node has, in order.
pub open spec fn kept_repo(nodes: Seq<GraphNode>, repo: Seq<GraphNode>) -> Seq<GraphNode>
    decreases repo.len(),
{
    if repo.len() == 0 {
        Seq::empty()
    } else {
        let r = kept_repo(nodes, repo.drop_last());
        if find_path(nodes, repo.last().path_v()) >= 0 {
            r
        } else {
            r.push(repo.last())
        }
    }
}

/// Two node lists with the same paths, place by place.
pub open spec fn same_paths(a: Seq<GraphNode>, b: Seq<GraphNode>) -> bool {
    a.len() == b.len() && forall|i: int| 0 <= i < a.len() ==> (#[trigger] a[i]).path_v() == b[i].path_v()
}

pub proof fn lemma_find_path_same_paths(a: Seq<GraphNode>, b: Seq<GraphNode>, path: Seq<Seq<char>>)
    requires
        same_paths(a, b),
    ensures
        find_path(a, path) == find_path(b, path),
    decreases a.len(),
{
    if a.len() > 0 {
        assert(same_paths(a.drop_last(), b.drop_last()));
        lemma_find_path_same_paths(a.drop_last(), b.drop_last(), path);
        assert(a.last().path_v() == b.last().path_v());
    }
}

/// Each kept repository content is one of the repository contents.
pub proof fn lemma_kept_repo_from(nodes: Seq<GraphNode>, repo: Seq<GraphNode>, k: int)
    requires
        0 <= k < kept_repo(nodes, repo).len(),
    ensures
        exists|i: int| 0 <= i < repo.len() && repo[i] == #[trigger] kept_repo(nodes, repo)[k],
    decreases repo.len(),
{
    let r = kept_repo(nodes, repo.drop_last());
    if k < r.len() {
        lemma_kept_repo_from(nodes, repo.drop_last(), k);
        let i = choose|i: int| 0 <= i < repo.drop_last().len() && repo.drop_last()[i] == #[trigger] kept_repo(nodes, repo.drop_last())[k];
        assert(repo[i] == kept_repo(nodes, repo)[k]);
    } else {
        assert(repo[repo.len() - 1] == kept_repo(nodes, repo)[k]);
    }
}

pub proof fn lemma_mark_overlap_paths(nodes: Seq<GraphNode>, repo: Seq<GraphNode>)
    ensures
        same_paths(mark_overlap(nodes, repo), nodes),
        forall|i: int| 0 <= i < nodes.len() ==> (#[trigger] mark_overlap(nodes, repo)[i]).content == nodes[i].content,
    decreases repo.len(),
{
    if repo.len() > 0 {
        lemma_mark_overlap_paths(nodes, repo.drop_last());
        lemma_find_path_range(nodes, repo.last().path_v());
    }
}

impl ContentGraph {
    /// Adresses the edge case when the workspace and repository folders
    /// overlap, e.g. if workspace is inside the repository folder: a
    /// repository content whose path a graph node already has marks that
    /// node as found in a repository too, and does not wait with the others.
    fn fix_workspace_repo_overlap(&mut self, repo: Vec<GraphNode>) -> (kept: Vec<GraphNode>)
        requires
            old(self).well_formed(),
        ensures
            final(self).nodes@ == mark_overlap(old(self).nodes@, repo@),
            kept@ == kept_repo(old(self).nodes@, repo@),
            *final(self) == (ContentGraph { nodes: final(self).nodes, ..*old(self) }),
            final(self).well_formed(),
    {
        let ghost nodes0 = self.nodes@;
        let mut kept: Vec<GraphNode> = Vec::new();
        let mut i: usize = 0;
        while i < repo.len()
            invariant
                i <= repo@.len(),
                nodes0 == old(self).nodes@,
                self.nodes@ == mark_overlap(nodes0, repo@.take(i as int)),
                kept@ == kept_repo(nodes0, repo@.take(i as int)),
                *self == (ContentGraph { nodes: self.nodes, ..*old(self) }),
                old(self).well_formed(),
            decreases repo@.len() - i,
        {
            proof {
                assert(repo@.take(i + 1).drop_last() =~= repo@.take(i as int));
                lemma_mark_overlap_paths(nodes0, repo@.take(i as int));
                lemma_find_path_same_paths(self.nodes@, nodes0, repo@[i as int].path_v());
                lemma_find_path_range(nodes0, repo@[i as int].path_v());
            }
            match Self::find_path_in(&self.nodes, repo[i].content.path()) {
                Some(j) => {
                    let n = self.nodes[j].copy();
                    self.nodes.set(j, GraphNode { content: n.content, in_workspace: n.in_workspace, in_repository: true, is_native: n.is_native });
                },
                None => {
                    kept.push(repo[i].copy());
                },
            }
            i = i + 1;
        }
        assert(repo@.take(repo@.len() as int) =~= repo@);
        proof {
            lemma_mark_overlap_paths(nodes0, repo@);
            assert forall|k: int| 0 <= k < self.nodes@.len() implies content_in_bounds(*(#[trigger] self.nodes@[k]).content) by {
                assert(self.nodes@[k].content == nodes0[k].content);
            }
        }
        kept
    }

    /// Takes what the repository scanners found (the second step, where
    /// [`ContentGraph::build_begin`] asked for it). Repository contents
    /// whose path a graph node has mark that node; the others wait until a
    /// dependency asks for them.
    pub fn build_add_repositories(&mut self, repos: Vec<ScanOutput>)
        requires
            old(self).well_formed(),
            old(self).building,
            old(self).linking,
            !old(self).repos_added,
            outputs_in_bounds(repos@),
        ensures
            final(self).well_formed(),
            final(self).nodes@ == mark_overlap(old(self).nodes@, outputs_nodes(repos@, false)),
            final(self).repo_nodes@ == kept_repo(old(self).nodes@, outputs_nodes(repos@, false)),
            final(self).errors@.map_values(|e: ContentGraphError| e@) == old(self).errors@.map_values(|e: ContentGraphError| e@)
                + outputs_errors(repos@),
            final(self).repos_added,
            *final(self) == (ContentGraph {
                nodes: final(self).nodes,
                repo_nodes: final(self).repo_nodes,
                errors: final(self).errors,
                repos_added: true,
                ..*old(self)
            }),
            final(self).link_state() == with_repositories(old(self).link_state(), repos@),
    {
        let ghost errors0 = self.errors@;
        let (found, mut met) = take_scan_outputs(repos, false);
        self.errors.append(&mut met);
        assert(self.errors@.map_values(|e: ContentGraphError| e@) =~= errors0.map_values(|e: ContentGraphError| e@)
            + outputs_errors(repos@));
        let ghost st = *self;
        let kept = self.fix_workspace_repo_overlap(found);
        proof {
            assert forall|k: int| 0 <= k < kept@.len() implies content_in_bounds(*(#[trigger] kept@[k]).content) by {
                lemma_kept_repo_from(st.nodes@, outputs_nodes(repos@, false), k);
            }
        }
        self.repo_nodes = kept;
        self.repos_added = true;
    }
}

impl ContentGraph {
    /// Whether a node waits to have its dependencies linked (the third
    /// step goes on while this holds).
    pub fn build_has_next(&self) -> (r: bool)
        ensures
            r == (self.building && self.linking && self.next_node < self.nodes@.len()),
    {
        self.building && self.linking && self.next_node < self.nodes.len()
    }

    /// The paths, read from the next node's directory, whose probes linking
    /// the next node needs, in the order that [`ContentGraph::build_link_next`]
    /// takes them.
    pub fn build_dependency_paths(&self) -> (r: Vec<AbsPath>)
        requires
            self.well_formed(),
            self.next_node < self.nodes@.len(),
        ensures
            r@.map_values(|p: AbsPath| p@) == path_requests(self.nodes@, self.next_node as int),
    {
        let n = &self.nodes[self.next_node];
        match &*n.content {
            Content::Project(proj) => {
                let deps = &proj.manifest.dependencies.0;
                let order = stable_order_by_name(deps);
                let ghost ord = dep_order(deps@);
                let ghost node_path = proj.path@;
                let mut r: Vec<AbsPath> = Vec::new();
                let mut p: usize = 0;
                while p < order.len()
                    invariant
                        p <= order@.len(),
                        order@.len() == deps@.len(),
                        order@.map_values(|x: usize| x as int) == ord,
                        forall|q: int| 0 <= q < order@.len() ==> #[trigger] order@[q] < deps@.len(),
                        r@.map_values(|x: AbsPath| x@) == path_requests_upto(node_path, deps@, ord, p as int),
                        node_path == proj.path@,
                    decreases order@.len() - p,
                {
                    proof {
                        assert(ord[p as int] == order@[p as int] as int);
                    }
                    let ghost before = r@;
                    match &deps[order[p]].value {
                        DependencyValue::FromPath { path } => {
                            r.push(AbsPath::resolve(path, &proj.path));
                            assert(r@.map_values(|x: AbsPath| x@) =~= before.map_values(|x: AbsPath| x@).push(resolve_spec(path@, node_path)));
                        },
                        DependencyValue::FromRepo(_) => {},
                    }
                    p = p + 1;
                }
                r
            },
            _ => {
                let r: Vec<AbsPath> = Vec::new();
                assert(r@.map_values(|x: AbsPath| x@) =~= Seq::<Seq<Seq<char>>>::empty());
                r
            },
        }
    }

    /// Links the dependencies of the next node (the third step): `probes`
    /// tells, in order, what is at each path that
    /// [`ContentGraph::build_dependency_paths`] listed.
    pub fn build_link_next(&mut self, probes: Vec<DependencyProbe>)
        requires
            old(self).well_formed(),
            old(self).building,
            old(self).linking,
            old(self).next_node < old(self).nodes@.len(),
            probes@.len() == path_requests(old(self).nodes@, old(self).next_node as int).len(),
            probes_in_bounds(probes@),
        ensures
            final(self).well_formed(),
            final(self).link_state() == link_node(old(self).link_state(), old(self).next_node as int, probes@),
            final(self).next_node == old(self).next_node + 1,
            extends_nodes(old(self).nodes@, final(self).nodes@),
            *final(self) == (ContentGraph {
                nodes: final(self).nodes,
                edges: final(self).edges,
                errors: final(self).errors,
                repo_nodes: final(self).repo_nodes,
                next_node: final(self).next_node,
                ..*old(self)
            }),
    {
        let idx = self.next_node;
        // the node count fits `usize`, so the next index does too
        let len = self.nodes.len();
        self.link_dependencies(idx, probes);
        assert(idx < len);
        self.next_node = idx + 1;
    }
}


/// A project's dependencies are linked in order of their names: by default
/// dependencies are sorted by their name (equal names keep their order).
pub proof fn lemma_dependencies_in_name_order(deps: Seq<DependencyEntry>)
    ensures
        forall|p: int, q: int|
            0 <= p < q < deps.len() ==> !lex_lt(
                deps[#[trigger] dep_order(deps)[q]].name@,
                deps[#[trigger] dep_order(deps)[p]].name@,
            ),
{
    let lt = name_lt(deps);
    let n = deps.len();
    assert forall|a: int| 0 <= a < n implies !#[trigger] lt(a, a) by {
        lemma_lex_lt_irreflexive(deps[a].name@);
    }
    assert forall|a: int, b: int, c: int|
        0 <= a < n && 0 <= b < n && 0 <= c < n && #[trigger] lt(a, b) && #[trigger] lt(b, c) implies lt(a, c) by {
        lemma_lex_lt_transitive(deps[a].name@, deps[b].name@, deps[c].name@);
    }
    assert(strict_order_on(n, lt));
    lemma_insertion_order_sorted(n, lt);
    lemma_insertion_order_elements(n, lt);
}

/// Orders dependency positions by name, stably.
fn stable_order_by_name(deps: &Vec<DependencyEntry>) -> (r: Vec<usize>)
    ensures
        r@.map_values(|x: usize| x as int) == dep_order(deps@),
        r@.len() == deps@.len(),
        forall|q: int| 0 <= q < r@.len() ==> #[trigger] r@[q] < deps@.len(),
{
    let ghost lt = name_lt(deps@);
    let mut order: Vec<usize> = Vec::new();
    let mut j: usize = 0;
    while j < deps.len()
        invariant
            j <= deps@.len(),
            lt == name_lt(deps@),
            order@.map_values(|x: usize| x as int) == insertion_order(j as nat, lt),
            order@.len() == j,
            forall|q: int| 0 <= q < order@.len() ==> #[trigger] order@[q] < j,
        decreases deps@.len() - j,
    {
        let ghost ov = order@.map_values(|x: usize| x as int);
        let mut above: Vec<bool> = Vec::new();
        let mut p: usize = 0;
        while p < order.len()
            invariant
                p <= order@.len(),
                j < deps@.len(),
                lt == name_lt(deps@),
                ov == order@.map_values(|x: usize| x as int),
                forall|q: int| 0 <= q < order@.len() ==> #[trigger] order@[q] < j,
                above@.len() == p,
                forall|q: int| 0 <= q < p ==> #[trigger] above@[q] == lt(j as int, ov[q]),
            decreases order@.len() - p,
        {
            above.push(str_lt(deps[j].name.as_str(), deps[order[p]].name.as_str()));
            p = p + 1;
        }
        let ip = find_insertion_point(&above, Ghost(ov), Ghost(j as int), Ghost(lt));
        proof {
            lemma_insertion_point_bounds(ov, j as int, lt);
        }
        order.insert(ip, j);
        proof {
            assert(order@.map_values(|x: usize| x as int) =~= ov.insert(ip as int, j as int));
        }
        j = j + 1;
        assert forall|q: int| 0 <= q < order@.len() implies #[trigger] order@[q] < j by {
            lemma_insertion_order_elements(j as nat, lt);
            assert(order@.map_values(|x: usize| x as int)[q] == order@[q] as int);
        }
    }
    order
}

} // verus!
