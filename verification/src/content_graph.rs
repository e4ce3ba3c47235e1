//! The graph of contents in the workspace and the dependencies between them.

pub mod walk;
pub mod building;
pub mod difference;
pub mod rebuild;

use std::sync::Arc;
use vstd::prelude::*;
use crate::content::{Content, ContentScanError};
use crate::content_scanner::ContentScanner;
use crate::file_error::{FileError, IoError};
use crate::manifest::ManifestError;
use crate::ordering::{insertion_order, find_insertion_point, lemma_insertion_order_elements, lemma_insertion_order_sorted, lemma_insertion_point_bounds, strict_order_on};
use crate::paths::{AbsPath, PathBuf, PathBufView, is_path_prefix};
use crate::redkit;
use crate::text::Range;

verus! {

/// `Arc::clone`: another handle to the same content.
#[verifier::external_body]
fn share_content(c: &Arc<Content>) -> (r: Arc<Content>)
    ensures
        r == *c,
{
    Arc::clone(c)
}

pub enum ContentGraphError {
    Io(FileError<IoError>),
    ManifestRead(FileError<ManifestError>),
    RedkitManifestRead(FileError<redkit::manifest::Error>),
    /// project dependency at path could not be found
    DependencyPathNotFound {
        content_path: PathBuf,
        /// Manifest from which this error originated
        manifest_path: AbsPath,
        /// Location in the manifest where the path is present
        manifest_range: Range,
    },
    /// project dependency with name could not be found
    DependencyNameNotFound {
        content_name: String,
        manifest_path: AbsPath,
        manifest_range: Range,
    },
    /// project dependency with name could not be found at specified path
    DependencyNameNotFoundAtPath {
        content_name: String,
        manifest_path: AbsPath,
        manifest_range: Range,
    },
    /// there are multiple matching dependencies with name for this project
    MultipleMatchingDependencies {
        content_name: String,
        manifest_path: AbsPath,
        manifest_range: Range,
        matching_paths: Vec<AbsPath>,
    },
    /// content specified itself as its own dependency
    SelfDependency {
        manifest_path: AbsPath,
        manifest_range: Range,
    },
    /// native content could not be found
    NativeContentNotFound(Option<ContentScanError>),
}

/// [`ContentGraphError`] with paths and names taken by their views.
pub enum ContentGraphErrorView {
    Io(FileError<IoError>),
    ManifestRead(FileError<ManifestError>),
    RedkitManifestRead(FileError<redkit::manifest::Error>),
    DependencyPathNotFound {
        content_path: PathBufView,
        manifest_path: Seq<Seq<char>>,
        manifest_range: Range,
    },
    DependencyNameNotFound {
        content_name: Seq<char>,
        manifest_path: Seq<Seq<char>>,
        manifest_range: Range,
    },
    DependencyNameNotFoundAtPath {
        content_name: Seq<char>,
        manifest_path: Seq<Seq<char>>,
        manifest_range: Range,
    },
    MultipleMatchingDependencies {
        content_name: Seq<char>,
        manifest_path: Seq<Seq<char>>,
        manifest_range: Range,
        matching_paths: Seq<Seq<Seq<char>>>,
    },
    SelfDependency {
        manifest_path: Seq<Seq<char>>,
        manifest_range: Range,
    },
    NativeContentNotFound(Option<ContentScanError>),
}

impl View for ContentGraphError {
    type V = ContentGraphErrorView;

    open spec fn view(&self) -> ContentGraphErrorView {
        match self {
            ContentGraphError::Io(e) => ContentGraphErrorView::Io(*e),
            ContentGraphError::ManifestRead(e) => ContentGraphErrorView::ManifestRead(*e),
            ContentGraphError::RedkitManifestRead(e) => ContentGraphErrorView::RedkitManifestRead(*e),
            ContentGraphError::DependencyPathNotFound { content_path, manifest_path, manifest_range } =>
                ContentGraphErrorView::DependencyPathNotFound {
                    content_path: content_path@,
                    manifest_path: manifest_path@,
                    manifest_range: *manifest_range,
                },
            ContentGraphError::DependencyNameNotFound { content_name, manifest_path, manifest_range } =>
                ContentGraphErrorView::DependencyNameNotFound {
                    content_name: content_name@,
                    manifest_path: manifest_path@,
                    manifest_range: *manifest_range,
                },
            ContentGraphError::DependencyNameNotFoundAtPath { content_name, manifest_path, manifest_range } =>
                ContentGraphErrorView::DependencyNameNotFoundAtPath {
                    content_name: content_name@,
                    manifest_path: manifest_path@,
                    manifest_range: *manifest_range,
                },
            ContentGraphError::MultipleMatchingDependencies { content_name, manifest_path, manifest_range, matching_paths } =>
                ContentGraphErrorView::MultipleMatchingDependencies {
                    content_name: content_name@,
                    manifest_path: manifest_path@,
                    manifest_range: *manifest_range,
                    matching_paths: matching_paths@.map_values(|p: AbsPath| p@),
                },
            ContentGraphError::SelfDependency { manifest_path, manifest_range } =>
                ContentGraphErrorView::SelfDependency {
                    manifest_path: manifest_path@,
                    manifest_range: *manifest_range,
                },
            ContentGraphError::NativeContentNotFound(e) => ContentGraphErrorView::NativeContentNotFound(*e),
        }
    }
}

pub struct GraphNode {
    pub content: Arc<Content>,
    pub in_workspace: bool,
    pub in_repository: bool,
    pub is_native: bool,
}

impl GraphNode {
    pub open spec fn path_v(&self) -> Seq<Seq<char>> {
        self.content.path_v()
    }

    pub open spec fn name_v(&self) -> Seq<char> {
        self.content.name_v()
    }

    pub fn copy(&self) -> (r: GraphNode)
        ensures
            r == *self,
    {
        GraphNode {
            content: share_content(&self.content),
            in_workspace: self.in_workspace,
            in_repository: self.in_repository,
            is_native: self.is_native,
        }
    }
}

/// Edge direction is:
/// dependant ---> dependency
/// Priority is higher the lower is the number (just like Witcher 3 mod priority is done).
#[derive(Clone, Copy, PartialEq, Eq, Structural)]
pub struct GraphEdge {
    pub dependant_idx: usize,
    pub dependency_idx: usize,
    pub priority: i32,
}

#[derive(Clone, Copy, PartialEq, Eq, Structural)]
pub enum GraphEdgeDirection {
    Dependants,
    Dependencies,
}

/// The end of an edge at which a walk in `dir` stands before taking it.
pub open spec fn edge_source(e: GraphEdge, dir: GraphEdgeDirection) -> int {
    match dir {
        GraphEdgeDirection::Dependants => e.dependency_idx as int,
        GraphEdgeDirection::Dependencies => e.dependant_idx as int,
    }
}

/// The end of an edge at which a walk in `dir` arrives by taking it.
pub open spec fn edge_target(e: GraphEdge, dir: GraphEdgeDirection) -> int {
    match dir {
        GraphEdgeDirection::Dependants => e.dependant_idx as int,
        GraphEdgeDirection::Dependencies => e.dependency_idx as int,
    }
}

/// Edges that leave node `idx` in direction `dir`, in the order of `edges`.
pub open spec fn incident_edges(edges: Seq<GraphEdge>, idx: int, dir: GraphEdgeDirection) -> Seq<GraphEdge>
    decreases edges.len(),
{
    if edges.len() == 0 {
        Seq::empty()
    } else {
        let r = incident_edges(edges.drop_last(), idx, dir);
        if edge_source(edges.last(), dir) == idx {
            r.push(edges.last())
        } else {
            r
        }
    }
}

/// `s` without the elements equal to `v`, in order.
pub open spec fn without_value(s: Seq<int>, v: int) -> Seq<int>
    decreases s.len(),
{
    if s.len() == 0 {
        Seq::empty()
    } else {
        let r = without_value(s.drop_last(), v);
        if s.last() == v {
            r
        } else {
            r.push(s.last())
        }
    }
}

/// Strict priority order between positions of an edge list.
pub open spec fn priority_lt(es: Seq<GraphEdge>) -> spec_fn(int, int) -> bool {
    |a: int, b: int| es[a].priority < es[b].priority
}

/// Edges leaving `idx` in the order a walk takes them: by priority (stably)
/// towards dependencies, in stored order towards dependants.
pub open spec fn ordered_incident_edges(edges: Seq<GraphEdge>, idx: int, dir: GraphEdgeDirection) -> Seq<GraphEdge> {
    let inc = incident_edges(edges, idx, dir);
    match dir {
        GraphEdgeDirection::Dependencies => insertion_order(inc.len(), priority_lt(inc)).map_values(|i: int| inc[i]),
        GraphEdgeDirection::Dependants => inc,
    }
}

/// The direct neighbours of `idx` in direction `dir`, in walking order,
/// leaving out links of a node to itself.
pub open spec fn neighbours(edges: Seq<GraphEdge>, idx: int, dir: GraphEdgeDirection) -> Seq<int> {
    without_value(
        ordered_incident_edges(edges, idx, dir).map_values(|e: GraphEdge| edge_target(e, dir)),
        idx,
    )
}

/// `i` is the first node with the given path.
pub open spec fn is_first_with_path(nodes: Seq<GraphNode>, path: Seq<Seq<char>>, i: int) -> bool {
    &&& 0 <= i < nodes.len()
    &&& nodes[i].path_v() == path
    &&& forall|j: int| 0 <= j < i ==> nodes[j].path_v() != path
}

/// Some node has the given path.
pub open spec fn has_path(nodes: Seq<GraphNode>, path: Seq<Seq<char>>) -> bool {
    exists|i: int| 0 <= i < nodes.len() && nodes[i].path_v() == path
}

/// `k` is the first stored edge from node `a` to node `b`.
pub open spec fn is_first_edge(edges: Seq<GraphEdge>, a: int, b: int, k: int) -> bool {
    &&& 0 <= k < edges.len()
    &&& edges[k].dependant_idx == a
    &&& edges[k].dependency_idx == b
    &&& forall|m: int| 0 <= m < k ==> !(edges[m].dependant_idx == a && edges[m].dependency_idx == b)
}

/// Some stored edge goes from node `a` to node `b`.
pub open spec fn has_edge(edges: Seq<GraphEdge>, a: int, b: int) -> bool {
    exists|k: int| 0 <= k < edges.len() && edges[k].dependant_idx == a && edges[k].dependency_idx == b
}

/// The path of the first node, from index `i` on, whose content contains
/// `path`.
pub open spec fn first_containing(nodes: Seq<GraphNode>, path: Seq<Seq<char>>, i: int) -> Option<Seq<Seq<char>>>
    decreases nodes.len() - i,
{
    if i < 0 || i >= nodes.len() {
        None
    } else if is_path_prefix(nodes[i].path_v(), path) {
        Some(nodes[i].path_v())
    } else {
        first_containing(nodes, path, i + 1)
    }
}

/// Stores contents needed in the current workspace and tracks relationships between them.
pub struct ContentGraph {
    pub repo_scanners: Vec<ContentScanner>,
    pub workspace_scanners: Vec<ContentScanner>,
    pub native_content_path: Option<AbsPath>,
    pub nodes: Vec<GraphNode>,
    pub edges: Vec<GraphEdge>,
    pub errors: Vec<ContentGraphError>,
    /// Whether a build is in progress.
    pub building: bool,
    /// Nodes and edges before the build in progress, to tell the difference
    /// at its end.
    pub prev_nodes: Vec<GraphNode>,
    pub prev_edges: Vec<GraphEdge>,
    /// Repository contents not (yet) taken into the graph.
    pub repo_nodes: Vec<GraphNode>,
    /// Whether the build in progress links dependencies (it does when the
    /// workspace holds any content).
    pub linking: bool,
    /// Whether repository contents were handed over to the build.
    pub repos_added: bool,
    /// The next node whose dependencies get linked.
    pub next_node: usize,
}

/// A content whose dependency count fits the priorities given to them.
pub open spec fn content_in_bounds(c: Content) -> bool {
    c is Project ==> c->Project_0.manifest.dependencies.0@.len() <= i32::MAX
}

pub open spec fn nodes_in_bounds(nodes: Seq<GraphNode>) -> bool {
    forall|i: int| 0 <= i < nodes.len() ==> content_in_bounds(*(#[trigger] nodes[i]).content)
}

/// Every edge joins two nodes of the graph.
pub open spec fn edges_valid(nodes_len: int, edges: Seq<GraphEdge>) -> bool {
    forall|i: int|
        0 <= i < edges.len() ==> (#[trigger] edges[i]).dependant_idx < nodes_len
            && edges[i].dependency_idx < nodes_len
}

impl ContentGraph {
    /// The graph's invariant: edges join nodes of the graph and no edge is
    /// stored twice; a build in progress keeps the same of the graph it
    /// started from.
    pub open spec fn well_formed(&self) -> bool {
        &&& edges_valid(self.nodes@.len() as int, self.edges@)
        &&& self.edges@.no_duplicates()
        &&& edges_valid(self.prev_nodes@.len() as int, self.prev_edges@)
        &&& self.next_node <= self.nodes@.len()
        &&& nodes_in_bounds(self.nodes@)
        &&& nodes_in_bounds(self.repo_nodes@)
    }

    pub fn new() -> (r: ContentGraph)
        ensures
            r.well_formed(),
            r.nodes@.len() == 0,
            r.edges@.len() == 0,
            r.errors@.len() == 0,
            r.repo_scanners@.len() == 0,
            r.workspace_scanners@.len() == 0,
            r.native_content_path is None,
            !r.building,
    {
        ContentGraph {
            repo_scanners: Vec::new(),
            workspace_scanners: Vec::new(),
            native_content_path: None,
            nodes: Vec::new(),
            edges: Vec::new(),
            errors: Vec::new(),
            building: false,
            prev_nodes: Vec::new(),
            prev_edges: Vec::new(),
            repo_nodes: Vec::new(),
            linking: false,
            repos_added: false,
            next_node: 0,
        }
    }

    pub fn clear_repository_scanners(&mut self)
        ensures
            final(self).repo_scanners@.len() == 0,
            *final(self) == (ContentGraph { repo_scanners: final(self).repo_scanners, ..*old(self) }),
    {
        self.repo_scanners.clear();
    }

    pub fn add_repository_scanner(&mut self, scanner: ContentScanner)
        ensures
            final(self).repo_scanners@ == old(self).repo_scanners@.push(scanner),
            *final(self) == (ContentGraph { repo_scanners: final(self).repo_scanners, ..*old(self) }),
    {
        self.repo_scanners.push(scanner);
    }

    pub fn clear_workspace_scanners(&mut self)
        ensures
            final(self).workspace_scanners@.len() == 0,
            *final(self) == (ContentGraph { workspace_scanners: final(self).workspace_scanners, ..*old(self) }),
    {
        self.workspace_scanners.clear();
    }

    pub fn add_workspace_scanner(&mut self, scanner: ContentScanner)
        ensures
            final(self).workspace_scanners@ == old(self).workspace_scanners@.push(scanner),
            *final(self) == (ContentGraph { workspace_scanners: final(self).workspace_scanners, ..*old(self) }),
    {
        self.workspace_scanners.push(scanner);
    }

    /// Set the path to native content, which is content containing declarations of symbols that don't appear as declarations anywhere in content0.
    /// It is also used to attribute to it all the non-declarable types, i.e. stuff that a compiler always assumes to be there.
    /// This content is always set as a dependency of "content0" content.
    pub fn set_native_content_path(&mut self, native_content_path: &AbsPath)
        ensures
            final(self).native_content_path is Some,
            final(self).native_content_path->0@ == native_content_path@,
            *final(self) == (ContentGraph { native_content_path: final(self).native_content_path, ..*old(self) }),
    {
        self.native_content_path = Some(native_content_path.copy());
    }

    fn get_node_index_by_path(&self, path: &AbsPath) -> (r: Option<usize>)
        ensures
            r is Some ==> is_first_with_path(self.nodes@, path@, r->0 as int),
            r is None ==> !has_path(self.nodes@, path@),
    {
        let mut i: usize = 0;
        while i < self.nodes.len()
            invariant
                i <= self.nodes@.len(),
                forall|j: int| 0 <= j < i ==> self.nodes@[j].path_v() != path@,
            decreases self.nodes@.len() - i,
        {
            if self.nodes[i].content.path().eq(path) {
                return Some(i);
            }
            i = i + 1;
        }
        None
    }

    pub fn get_node_by_path(&self, content_path: &AbsPath) -> (r: Option<&GraphNode>)
        ensures
            r is Some ==> exists|i: int| is_first_with_path(self.nodes@, content_path@, i) && *r->0 == self.nodes@[i],
            r is None ==> !has_path(self.nodes@, content_path@),
    {
        match self.get_node_index_by_path(content_path) {
            Some(i) => Some(&self.nodes[i]),
            None => None,
        }
    }

    /// Checks given path against contents in the graph.
    /// If the path is a subpath to any content in the graph, a path to that content will be returned.
    pub fn strip_content_path_prefix(&self, path: &AbsPath) -> (r: Option<AbsPath>)
        ensures
            r is None <==> first_containing(self.nodes@, path@, 0) is None,
            r is Some ==> first_containing(self.nodes@, path@, 0) == Some(r->0@),
            r is None <==> forall|i: int| 0 <= i < self.nodes@.len() ==> !is_path_prefix(#[trigger] self.nodes@[i].path_v(), path@),
            r is Some ==> exists|i: int| 0 <= i < self.nodes@.len()
                && is_path_prefix(self.nodes@[i].path_v(), path@)
                && r->0@ == self.nodes@[i].path_v()
                && forall|j: int| 0 <= j < i ==> !is_path_prefix(#[trigger] self.nodes@[j].path_v(), path@),
    {
        let mut i: usize = 0;
        while i < self.nodes.len()
            invariant
                i <= self.nodes@.len(),
                forall|j: int| 0 <= j < i ==> !is_path_prefix(#[trigger] self.nodes@[j].path_v(), path@),
                first_containing(self.nodes@, path@, 0) == first_containing(self.nodes@, path@, i as int),
            decreases self.nodes@.len() - i,
        {
            let p = self.nodes[i].content.path();
            if path.starts_with(p) {
                assert(is_path_prefix(self.nodes@[i as int].path_v(), path@));
                return Some(p.copy());
            }
            i = i + 1;
        }
        None
    }

    /// Number of nodes in the graph.
    pub fn node_count(&self) -> (r: usize)
        ensures
            r == self.nodes@.len(),
    {
        self.nodes.len()
    }

    /// Get direct neighbours of a given node.
    /// Order of the nodes is based on edge's `priority` attribute.
    pub fn neighbour_indices_in_direction(&self, node_idx: usize, direction: GraphEdgeDirection) -> (r: Vec<usize>)
        requires
            edges_valid(self.nodes@.len() as int, self.edges@),
        ensures
            r@.map_values(|i: usize| i as int) == neighbours(self.edges@, node_idx as int, direction),
            forall|k: int| 0 <= k < r@.len() ==> #[trigger] r@[k] < self.nodes@.len(),
    {
        // edges leaving the node, in stored order
        let mut inc: Vec<GraphEdge> = Vec::new();
        let mut i: usize = 0;
        while i < self.edges.len()
            invariant
                i <= self.edges@.len(),
                inc@ == incident_edges(self.edges@.take(i as int), node_idx as int, direction),
                edges_valid(self.nodes@.len() as int, self.edges@),
                edges_valid(self.nodes@.len() as int, inc@),
            decreases self.edges@.len() - i,
        {
            assert(self.edges@.take(i + 1).drop_last() =~= self.edges@.take(i as int));
            let e = self.edges[i];
            let from = match direction {
                GraphEdgeDirection::Dependants => e.dependency_idx,
                GraphEdgeDirection::Dependencies => e.dependant_idx,
            };
            if from == node_idx {
                inc.push(e);
            }
            i = i + 1;
        }
        assert(self.edges@.take(self.edges@.len() as int) =~= self.edges@);
        let ghost inc_v = inc@;
        // ordered by priority towards dependencies
        let ordered: Vec<GraphEdge> = match direction {
            GraphEdgeDirection::Dependencies => {
                let order = stable_order_by_priority(&inc);
                let mut out: Vec<GraphEdge> = Vec::new();
                let mut k: usize = 0;
                while k < order.len()
                    invariant
                        k <= order@.len(),
                        order@.len() == inc@.len(),
                        order@.map_values(|x: usize| x as int) == insertion_order(inc_v.len(), priority_lt(inc_v)),
                        forall|q: int| 0 <= q < order@.len() ==> #[trigger] order@[q] < inc@.len(),
                        out@.len() == k,
                        inc@ == inc_v,
                        forall|q: int| 0 <= q < k ==> #[trigger] out@[q] == inc_v[order@[q] as int],
                    decreases order@.len() - k,
                {
                    out.push(inc[order[k]]);
                    k = k + 1;
                }
                assert(out@ =~= insertion_order(inc_v.len(), priority_lt(inc_v)).map_values(|x: int| inc_v[x])) by {
                    assert forall|q: int| 0 <= q < out@.len() implies out@[q] == insertion_order(inc_v.len(), priority_lt(inc_v)).map_values(|x: int| inc_v[x])[q] by {
                        assert(order@.map_values(|x: usize| x as int)[q] == order@[q] as int);
                    }
                }
                out
            },
            GraphEdgeDirection::Dependants => inc,
        };
        assert(ordered@ == ordered_incident_edges(self.edges@, node_idx as int, direction));
        // the other ends, without links to the node itself
        let ghost targets = ordered@.map_values(|e: GraphEdge| edge_target(e, direction));
        let mut r: Vec<usize> = Vec::new();
        let mut k: usize = 0;
        while k < ordered.len()
            invariant
                k <= ordered@.len(),
                targets == ordered@.map_values(|e: GraphEdge| edge_target(e, direction)),
                r@.map_values(|x: usize| x as int) == without_value(targets.take(k as int), node_idx as int),
                edges_valid(self.nodes@.len() as int, ordered@),
                forall|q: int| 0 <= q < r@.len() ==> #[trigger] r@[q] < self.nodes@.len(),
            decreases ordered@.len() - k,
        {
            assert(targets.take(k + 1).drop_last() =~= targets.take(k as int));
            let e = ordered[k];
            let to = match direction {
                GraphEdgeDirection::Dependants => e.dependant_idx,
                GraphEdgeDirection::Dependencies => e.dependency_idx,
            };
            let ghost before = r@;
            if to != node_idx {
                r.push(to);
                assert(r@.map_values(|x: usize| x as int) =~= before.map_values(|x: usize| x as int).push(to as int));
            }
            k = k + 1;
        }
        assert(targets.take(ordered@.len() as int) =~= targets);
        r
    }

    pub fn dependency_priority(&self, dependant_path: &AbsPath, dependency_path: &AbsPath) -> (r: Option<i32>)
        ensures
            r is Some ==> exists|a: int, b: int, k: int|
                is_first_with_path(self.nodes@, dependant_path@, a)
                && is_first_with_path(self.nodes@, dependency_path@, b)
                && is_first_edge(self.edges@, a, b, k)
                && r->0 == self.edges@[k].priority,
            r is None ==> !has_path(self.nodes@, dependant_path@) || !has_path(self.nodes@, dependency_path@)
                || forall|a: int, b: int|
                    is_first_with_path(self.nodes@, dependant_path@, a)
                    && is_first_with_path(self.nodes@, dependency_path@, b)
                    ==> !has_edge(self.edges@, a, b),
    {
        let dependant_idx = match self.get_node_index_by_path(dependant_path) {
            Some(i) => i,
            None => return None,
        };
        let dependency_idx = match self.get_node_index_by_path(dependency_path) {
            Some(i) => i,
            None => return None,
        };
        let mut k: usize = 0;
        while k < self.edges.len()
            invariant
                k <= self.edges@.len(),
                is_first_with_path(self.nodes@, dependant_path@, dependant_idx as int),
                is_first_with_path(self.nodes@, dependency_path@, dependency_idx as int),
                forall|m: int| 0 <= m < k ==> !(self.edges@[m].dependant_idx == dependant_idx && self.edges@[m].dependency_idx == dependency_idx),
            decreases self.edges@.len() - k,
        {
            let e = self.edges[k];
            if e.dependant_idx == dependant_idx && e.dependency_idx == dependency_idx {
                assert(is_first_edge(self.edges@, dependant_idx as int, dependency_idx as int, k as int));
                return Some(e.priority);
            }
            k = k + 1;
        }
        assert forall|a: int, b: int|
            is_first_with_path(self.nodes@, dependant_path@, a)
            && is_first_with_path(self.nodes@, dependency_path@, b)
            implies !has_edge(self.edges@, a, b) by {
            if a < dependant_idx {
                assert(self.nodes@[a].path_v() != dependant_path@);
            }
            if a > dependant_idx {
                assert(self.nodes@[dependant_idx as int].path_v() != dependant_path@);
            }
            if b < dependency_idx {
                assert(self.nodes@[b].path_v() != dependency_path@);
            }
            if b > dependency_idx {
                assert(self.nodes@[dependency_idx as int].path_v() != dependency_path@);
            }
        }
        None
    }
}



proof fn lemma_incident_edges_valid(edges: Seq<GraphEdge>, n: int, idx: int, dir: GraphEdgeDirection)
    requires
        edges_valid(n, edges),
    ensures
        edges_valid(n, incident_edges(edges, idx, dir)),
    decreases edges.len(),
{
    if edges.len() > 0 {
        assert(edges_valid(n, edges.drop_last())) by {
            assert forall|i: int| 0 <= i < edges.drop_last().len() implies (#[trigger] edges.drop_last()[i]).dependant_idx < n
                && edges.drop_last()[i].dependency_idx < n by {
                assert(edges.drop_last()[i] == edges[i]);
            }
        }
        lemma_incident_edges_valid(edges.drop_last(), n, idx, dir);
        assert(edges.last() == edges[edges.len() - 1]);
    }
}

proof fn lemma_without_value_in_range(s: Seq<int>, v: int, n: int)
    requires
        forall|k: int| 0 <= k < s.len() ==> 0 <= #[trigger] s[k] < n,
    ensures
        forall|k: int| 0 <= k < without_value(s, v).len() ==> 0 <= #[trigger] without_value(s, v)[k] < n,
    decreases s.len(),
{
    if s.len() > 0 {
        assert forall|k: int| 0 <= k < s.drop_last().len() implies 0 <= #[trigger] s.drop_last()[k] < n by {
            assert(s.drop_last()[k] == s[k]);
        }
        lemma_without_value_in_range(s.drop_last(), v, n);
        let r = without_value(s.drop_last(), v);
        assert(s.last() == s[s.len() - 1]);
        assert forall|k: int| 0 <= k < without_value(s, v).len() implies 0 <= #[trigger] without_value(s, v)[k] < n by {
            if k < r.len() {
                assert(without_value(s, v)[k] == r[k]);
            }
        }
    }
}

/// The neighbours of a node are nodes of the graph.
pub proof fn lemma_neighbours_bounded(edges: Seq<GraphEdge>, n: int, idx: int, dir: GraphEdgeDirection)
    requires
        edges_valid(n, edges),
    ensures
        forall|k: int| 0 <= k < neighbours(edges, idx, dir).len() ==> 0 <= #[trigger] neighbours(edges, idx, dir)[k] < n,
{
    let inc = incident_edges(edges, idx, dir);
    lemma_incident_edges_valid(edges, n, idx, dir);
    let ordered = ordered_incident_edges(edges, idx, dir);
    assert(edges_valid(n, ordered)) by {
        match dir {
            GraphEdgeDirection::Dependencies => {
                lemma_insertion_order_elements(inc.len(), priority_lt(inc));
                let o = insertion_order(inc.len(), priority_lt(inc));
                assert forall|i: int| 0 <= i < ordered.len() implies (#[trigger] ordered[i]).dependant_idx < n
                    && ordered[i].dependency_idx < n by {
                    assert(ordered[i] == inc[o[i]]);
                }
            },
            GraphEdgeDirection::Dependants => {},
        }
    }
    let targets = ordered.map_values(|e: GraphEdge| edge_target(e, dir));
    assert forall|k: int| 0 <= k < targets.len() implies 0 <= #[trigger] targets[k] < n by {
        assert(targets[k] == edge_target(ordered[k], dir));
    }
    lemma_without_value_in_range(targets, idx, n);
}

/// Walking towards dependencies takes a node's edges in order of priority:
/// an edge with a lower number (a higher priority) never comes after one
/// with a higher number.
pub proof fn lemma_dependencies_by_priority(edges: Seq<GraphEdge>, idx: int)
    ensures
        forall|p: int, q: int|
            0 <= p < q < ordered_incident_edges(edges, idx, GraphEdgeDirection::Dependencies).len() ==>
                (#[trigger] ordered_incident_edges(edges, idx, GraphEdgeDirection::Dependencies)[p]).priority
                    <= (#[trigger] ordered_incident_edges(edges, idx, GraphEdgeDirection::Dependencies)[q]).priority,
{
    let inc = incident_edges(edges, idx, GraphEdgeDirection::Dependencies);
    let lt = priority_lt(inc);
    let n = inc.len();
    let order = insertion_order(n, lt);
    assert(strict_order_on(n, lt));
    lemma_insertion_order_sorted(n, lt);
    lemma_insertion_order_elements(n, lt);
    let ordered = ordered_incident_edges(edges, idx, GraphEdgeDirection::Dependencies);
    assert forall|p: int, q: int| 0 <= p < q < ordered.len() implies (#[trigger] ordered[p]).priority <= (#[trigger] ordered[q]).priority by {
        assert(ordered[p] == inc[order[p]]);
        assert(ordered[q] == inc[order[q]]);
        assert(!lt(order[q], order[p]));
    }
}

/// Orders edge positions by priority, stably.
fn stable_order_by_priority(es: &Vec<GraphEdge>) -> (r: Vec<usize>)
    ensures
        r@.map_values(|x: usize| x as int) == insertion_order(es@.len() as nat, priority_lt(es@)),
        r@.len() == es@.len(),
        forall|q: int| 0 <= q < r@.len() ==> #[trigger] r@[q] < es@.len(),
{
    let ghost lt = priority_lt(es@);
    let mut order: Vec<usize> = Vec::new();
    let mut j: usize = 0;
    while j < es.len()
        invariant
            j <= es@.len(),
            lt == priority_lt(es@),
            order@.map_values(|x: usize| x as int) == insertion_order(j as nat, lt),
            order@.len() == j,
            forall|q: int| 0 <= q < order@.len() ==> #[trigger] order@[q] < j,
        decreases es@.len() - j,
    {
        let ghost ov = order@.map_values(|x: usize| x as int);
        let mut above: Vec<bool> = Vec::new();
        let mut p: usize = 0;
        while p < order.len()
            invariant
                p <= order@.len(),
                j < es@.len(),
                lt == priority_lt(es@),
                ov == order@.map_values(|x: usize| x as int),
                forall|q: int| 0 <= q < order@.len() ==> #[trigger] order@[q] < j,
                above@.len() == p,
                forall|q: int| 0 <= q < p ==> #[trigger] above@[q] == lt(j as int, ov[q]),
            decreases order@.len() - p,
        {
            above.push(es[j].priority < es[order[p]].priority);
            p = p + 1;
        }
        let ip = find_insertion_point(&above, Ghost(ov), Ghost(j as int), Ghost(lt));
        proof {
            lemma_insertion_point_bounds(ov, j as int, lt);
        }
        order.insert(ip, j);
        proof {
            assert(order@.map_values(|x: usize| x as int) =~= ov.insert(ip as int, j as int));
        }
        j = j + 1;
        assert forall|q: int| 0 <= q < order@.len() implies #[trigger] order@[q] < j by {
            lemma_insertion_order_elements(j as nat, lt);
            assert(order@.map_values(|x: usize| x as int)[q] == order@[q] as int);
        }
    }
    order
}

} // verus!
