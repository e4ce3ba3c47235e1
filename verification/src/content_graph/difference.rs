//! What changed between two builds of the content graph.
//!
//! Nodes are told apart by the paths of their contents, and edges by the
//! paths of the contents at their two ends.

use std::sync::Arc;
use vstd::prelude::*;
use crate::content::Content;
use crate::paths::AbsPath;
use super::{ContentGraph, GraphEdge, GraphNode, edges_valid, has_path, share_content};
use super::building::{find_path, lemma_find_path_prefix, lemma_find_path_range};

verus! {

/// A node that stayed in the graph but whose contents changed.
pub struct ModifiedGraphNode {
    pub node: GraphNode,
    pub source_tree_root_changed: bool,
}

/// An edge, told by the contents at its ends.
pub struct GraphEdgeWithContent {
    pub dependant_content: Arc<Content>,
    pub dependency_content: Arc<Content>,
}

/// What changed between two builds of the content graph.
pub struct ContentGraphDifference {
    pub added_nodes: Vec<GraphNode>,
    pub removed_nodes: Vec<GraphNode>,
    pub modified_nodes: Vec<ModifiedGraphNode>,
    pub added_edges: Vec<GraphEdgeWithContent>,
    pub removed_edges: Vec<GraphEdgeWithContent>,
}

/// The nodes of `nodes` that come first with their path and whose path no
/// node of `other` has, in order.
pub open spec fn fresh_nodes(nodes: Seq<GraphNode>, other: Seq<GraphNode>) -> Seq<GraphNode>
    decreases nodes.len(),
{
    if nodes.len() == 0 {
        Seq::empty()
    } else {
        let r = fresh_nodes(nodes.drop_last(), other);
        let p = nodes.last().path_v();
        if !has_path(nodes.drop_last(), p) && !has_path(other, p) {
            r.push(nodes.last())
        } else {
            r
        }
    }
}

/// For each old node that comes first with its path, the first new node with
/// that path where the two contents' source tree roots differ, in the old
/// order.
pub open spec fn modified_nodes_spec(old: Seq<GraphNode>, new: Seq<GraphNode>) -> Seq<GraphNode>
    decreases old.len(),
{
    if old.len() == 0 {
        Seq::empty()
    } else {
        let r = modified_nodes_spec(old.drop_last(), new);
        let n = old.last();
        let j = find_path(new, n.path_v());
        if !has_path(old.drop_last(), n.path_v()) && j >= 0 && new[j].content.root_v() != n.content.root_v() {
            r.push(new[j])
        } else {
            r
        }
    }
}

/// The paths of the contents at an edge's two ends.
pub open spec fn edge_key(e: GraphEdge, nodes: Seq<GraphNode>) -> (Seq<Seq<char>>, Seq<Seq<char>>) {
    (nodes[e.dependant_idx as int].path_v(), nodes[e.dependency_idx as int].path_v())
}

/// Some edge joins contents with these paths.
pub open spec fn has_key(edges: Seq<GraphEdge>, nodes: Seq<GraphNode>, key: (Seq<Seq<char>>, Seq<Seq<char>>)) -> bool {
    exists|i: int| 0 <= i < edges.len() && edge_key(#[trigger] edges[i], nodes) == key
}

/// The edges of `edges` that come first with their key and whose key no
/// edge of `other` has, in order.
pub open spec fn fresh_edges(
    edges: Seq<GraphEdge>,
    nodes: Seq<GraphNode>,
    other: Seq<GraphEdge>,
    other_nodes: Seq<GraphNode>,
) -> Seq<GraphEdge>
    decreases edges.len(),
{
    if edges.len() == 0 {
        Seq::empty()
    } else {
        let r = fresh_edges(edges.drop_last(), nodes, other, other_nodes);
        let k = edge_key(edges.last(), nodes);
        if !has_key(edges.drop_last(), nodes, k) && !has_key(other, other_nodes, k) {
            r.push(edges.last())
        } else {
            r
        }
    }
}

/// The edge told by the contents at its ends.
pub open spec fn with_content(e: GraphEdge, nodes: Seq<GraphNode>) -> GraphEdgeWithContent {
    GraphEdgeWithContent {
        dependant_content: nodes[e.dependant_idx as int].content,
        dependency_content: nodes[e.dependency_idx as int].content,
    }
}

/// The difference between two graphs.
pub open spec fn difference_holds(
    d: ContentGraphDifference,
    old_nodes: Seq<GraphNode>,
    new_nodes: Seq<GraphNode>,
    old_edges: Seq<GraphEdge>,
    new_edges: Seq<GraphEdge>,
) -> bool {
    &&& d.added_nodes@ == fresh_nodes(new_nodes, old_nodes)
    &&& d.removed_nodes@ == fresh_nodes(old_nodes, new_nodes)
    &&& d.modified_nodes@.map_values(|m: ModifiedGraphNode| m.node) == modified_nodes_spec(old_nodes, new_nodes)
    &&& forall|i: int| 0 <= i < d.modified_nodes@.len() ==> (#[trigger] d.modified_nodes@[i]).source_tree_root_changed
    &&& d.added_edges@ == fresh_edges(new_edges, new_nodes, old_edges, old_nodes).map_values(
        |e: GraphEdge| with_content(e, new_nodes),
    )
    &&& d.removed_edges@ == fresh_edges(old_edges, old_nodes, new_edges, new_nodes).map_values(
        |e: GraphEdge| with_content(e, old_nodes),
    )
}

pub proof fn lemma_find_path_has_path(nodes: Seq<GraphNode>, path: Seq<Seq<char>>)
    ensures
        find_path(nodes, path) >= 0 <==> has_path(nodes, path),
    decreases nodes.len(),
{
    lemma_find_path_range(nodes, path);
    if nodes.len() > 0 {
        lemma_find_path_has_path(nodes.drop_last(), path);
        if has_path(nodes, path) {
            let i = choose|i: int| 0 <= i < nodes.len() && nodes[i].path_v() == path;
            if i < nodes.len() - 1 {
                assert(nodes.drop_last()[i].path_v() == path);
            }
        }
        if has_path(nodes.drop_last(), path) {
            let i = choose|i: int| 0 <= i < nodes.drop_last().len() && nodes.drop_last()[i].path_v() == path;
            assert(nodes[i].path_v() == path);
        }
    }
}

proof fn lemma_fresh_nodes_present(m: Seq<GraphNode>, other: Seq<GraphNode>)
    requires
        forall|i: int| 0 <= i < m.len() ==> has_path(other, (#[trigger] m[i]).path_v()),
    ensures
        fresh_nodes(m, other).len() == 0,
    decreases m.len(),
{
    if m.len() > 0 {
        assert(has_path(other, m[m.len() - 1].path_v()));
        assert forall|i: int| 0 <= i < m.drop_last().len() implies has_path(other, (#[trigger] m.drop_last()[i]).path_v()) by {
            assert(m.drop_last()[i] == m[i]);
        }
        lemma_fresh_nodes_present(m.drop_last(), other);
    }
}

proof fn lemma_modified_nodes_same(n: Seq<GraphNode>, k: int)
    requires
        0 <= k <= n.len(),
    ensures
        modified_nodes_spec(n.take(k), n).len() == 0,
    decreases k,
{
    if k > 0 {
        let m = n.take(k);
        assert(m.drop_last() =~= n.take(k - 1));
        lemma_modified_nodes_same(n, k - 1);
        let p = m.last().path_v();
        if !has_path(m.drop_last(), p) {
            lemma_find_path_has_path(n.take(k - 1), p);
            lemma_find_path_prefix(n, p, k);
        }
    }
}

proof fn lemma_fresh_edges_present(
    m: Seq<GraphEdge>,
    nodes: Seq<GraphNode>,
    other: Seq<GraphEdge>,
)
    requires
        forall|i: int| 0 <= i < m.len() ==> has_key(other, nodes, edge_key(#[trigger] m[i], nodes)),
    ensures
        fresh_edges(m, nodes, other, nodes).len() == 0,
    decreases m.len(),
{
    if m.len() > 0 {
        assert(has_key(other, nodes, edge_key(m[m.len() - 1], nodes)));
        assert forall|i: int| 0 <= i < m.drop_last().len() implies has_key(other, nodes, edge_key(#[trigger] m.drop_last()[i], nodes)) by {
            assert(m.drop_last()[i] == m[i]);
        }
        lemma_fresh_edges_present(m.drop_last(), nodes, other);
    }
}

/// Where some edge has a key that no edge of `other` has, some edge is
/// fresh.
proof fn lemma_fresh_edges_nonempty(
    edges: Seq<GraphEdge>,
    nodes: Seq<GraphNode>,
    other: Seq<GraphEdge>,
    other_nodes: Seq<GraphNode>,
    k: int,
)
    requires
        0 <= k < edges.len(),
        !has_key(other, other_nodes, edge_key(edges[k], nodes)),
    ensures
        fresh_edges(edges, nodes, other, other_nodes).len() > 0,
    decreases edges.len(),
{
    let init = edges.drop_last();
    let key = edge_key(edges[k], nodes);
    if k < edges.len() - 1 {
        assert(init[k] == edges[k]);
        lemma_fresh_edges_nonempty(init, nodes, other, other_nodes, k);
    } else if has_key(init, nodes, key) {
        let j = choose|j: int| 0 <= j < init.len() && edge_key(#[trigger] init[j], nodes) == key;
        lemma_fresh_edges_nonempty(init, nodes, other, other_nodes, j);
    }
}

/// Where some node has a path that no node of `other` has, some node is
/// fresh.
proof fn lemma_fresh_nodes_nonempty(nodes: Seq<GraphNode>, other: Seq<GraphNode>, k: int)
    requires
        0 <= k < nodes.len(),
        !has_path(other, nodes[k].path_v()),
    ensures
        fresh_nodes(nodes, other).len() > 0,
    decreases nodes.len(),
{
    let init = nodes.drop_last();
    let p = nodes[k].path_v();
    if k < nodes.len() - 1 {
        assert(init[k] == nodes[k]);
        lemma_fresh_nodes_nonempty(init, other, k);
    } else if has_path(init, p) {
        let j = choose|j: int| 0 <= j < init.len() && (#[trigger] init[j]).path_v() == p;
        lemma_fresh_nodes_nonempty(init, other, j);
    }
}

/// A difference that adds or removes an edge is not empty: a change of the
/// dependencies alone is a change of the graph.
pub proof fn lemma_edge_changes_not_empty(d: ContentGraphDifference)
    ensures
        d.added_edges@.len() > 0 ==> !d.is_empty_spec(),
        d.removed_edges@.len() > 0 ==> !d.is_empty_spec(),
{
}

/// Where the new graph has an edge between contents that no old edge joins
/// (say a project gained a dependency on a content already in the graph),
/// the difference reports an added edge and is not empty; where an old
/// edge has no counterpart in the new graph, it reports a removed edge and
/// is not empty.
pub proof fn lemma_changed_edges_reported(
    d: ContentGraphDifference,
    old_nodes: Seq<GraphNode>,
    new_nodes: Seq<GraphNode>,
    old_edges: Seq<GraphEdge>,
    new_edges: Seq<GraphEdge>,
)
    requires
        difference_holds(d, old_nodes, new_nodes, old_edges, new_edges),
    ensures
        (exists|k: int|
            0 <= k < new_edges.len() && !has_key(old_edges, old_nodes, edge_key(#[trigger] new_edges[k], new_nodes)))
            ==> d.added_edges@.len() > 0 && !d.is_empty_spec(),
        (exists|k: int|
            0 <= k < old_edges.len() && !has_key(new_edges, new_nodes, edge_key(#[trigger] old_edges[k], old_nodes)))
            ==> d.removed_edges@.len() > 0 && !d.is_empty_spec(),
{
    if exists|k: int|
        0 <= k < new_edges.len() && !has_key(old_edges, old_nodes, edge_key(#[trigger] new_edges[k], new_nodes)) {
        let k = choose|k: int|
            0 <= k < new_edges.len() && !has_key(old_edges, old_nodes, edge_key(#[trigger] new_edges[k], new_nodes));
        lemma_fresh_edges_nonempty(new_edges, new_nodes, old_edges, old_nodes, k);
        assert(d.added_edges@.len() == fresh_edges(new_edges, new_nodes, old_edges, old_nodes).len());
    }
    if exists|k: int|
        0 <= k < old_edges.len() && !has_key(new_edges, new_nodes, edge_key(#[trigger] old_edges[k], old_nodes)) {
        let k = choose|k: int|
            0 <= k < old_edges.len() && !has_key(new_edges, new_nodes, edge_key(#[trigger] old_edges[k], old_nodes));
        lemma_fresh_edges_nonempty(old_edges, old_nodes, new_edges, new_nodes, k);
        assert(d.removed_edges@.len() == fresh_edges(old_edges, old_nodes, new_edges, new_nodes).len());
    }
}

/// An empty difference means the two graphs agree by path: every node of
/// each has a node with its path in the other, and every edge of each has
/// an edge between the same contents in the other.
pub proof fn lemma_empty_difference_same_graph(
    d: ContentGraphDifference,
    old_nodes: Seq<GraphNode>,
    new_nodes: Seq<GraphNode>,
    old_edges: Seq<GraphEdge>,
    new_edges: Seq<GraphEdge>,
)
    requires
        difference_holds(d, old_nodes, new_nodes, old_edges, new_edges),
        d.is_empty_spec(),
    ensures
        forall|i: int| 0 <= i < new_nodes.len() ==> has_path(old_nodes, (#[trigger] new_nodes[i]).path_v()),
        forall|i: int| 0 <= i < old_nodes.len() ==> has_path(new_nodes, (#[trigger] old_nodes[i]).path_v()),
        forall|k: int|
            0 <= k < new_edges.len() ==> has_key(old_edges, old_nodes, edge_key(#[trigger] new_edges[k], new_nodes)),
        forall|k: int|
            0 <= k < old_edges.len() ==> has_key(new_edges, new_nodes, edge_key(#[trigger] old_edges[k], old_nodes)),
{
    lemma_changed_edges_reported(d, old_nodes, new_nodes, old_edges, new_edges);
    assert forall|i: int| 0 <= i < new_nodes.len() implies has_path(old_nodes, (#[trigger] new_nodes[i]).path_v()) by {
        if !has_path(old_nodes, new_nodes[i].path_v()) {
            lemma_fresh_nodes_nonempty(new_nodes, old_nodes, i);
        }
    }
    assert forall|i: int| 0 <= i < old_nodes.len() implies has_path(new_nodes, (#[trigger] old_nodes[i]).path_v()) by {
        if !has_path(new_nodes, old_nodes[i].path_v()) {
            lemma_fresh_nodes_nonempty(old_nodes, new_nodes, i);
        }
    }
}

/// Comparing a graph with itself finds no difference: a build that gives
/// the same graph as before reports nothing changed.
pub proof fn lemma_difference_with_itself(d: ContentGraphDifference, nodes: Seq<GraphNode>, edges: Seq<GraphEdge>)
    requires
        difference_holds(d, nodes, nodes, edges, edges),
    ensures
        d.is_empty_spec(),
{
    assert forall|i: int| 0 <= i < nodes.len() implies has_path(nodes, (#[trigger] nodes[i]).path_v()) by {}
    lemma_fresh_nodes_present(nodes, nodes);
    assert(nodes.take(nodes.len() as int) =~= nodes);
    lemma_modified_nodes_same(nodes, nodes.len() as int);
    assert forall|i: int| 0 <= i < edges.len() implies has_key(edges, nodes, edge_key(#[trigger] edges[i], nodes)) by {}
    lemma_fresh_edges_present(edges, nodes, edges);
    assert(d.modified_nodes@.map_values(|m: ModifiedGraphNode| m.node).len() == d.modified_nodes@.len());
}

/// Whether one of the first `upto` nodes has the path.
fn has_path_upto(nodes: &Vec<GraphNode>, upto: usize, path: &AbsPath) -> (r: bool)
    requires
        upto <= nodes@.len(),
    ensures
        r == has_path(nodes@.take(upto as int), path@),
{
    let mut i: usize = 0;
    while i < upto
        invariant
            upto <= nodes@.len(),
            i <= upto,
            forall|j: int| 0 <= j < i ==> nodes@[j].path_v() != path@,
        decreases upto - i,
    {
        if nodes[i].content.path().eq(path) {
            assert(nodes@.take(upto as int)[i as int].path_v() == path@);
            return true;
        }
        i = i + 1;
    }
    assert forall|j: int| 0 <= j < nodes@.take(upto as int).len() implies nodes@.take(upto as int)[j].path_v() != path@ by {
        assert(nodes@.take(upto as int)[j] == nodes@[j]);
    }
    false
}

/// Whether one of the first `upto` edges joins contents with these paths.
fn has_key_upto(edges: &Vec<GraphEdge>, nodes: &Vec<GraphNode>, upto: usize, a: &AbsPath, b: &AbsPath) -> (r: bool)
    requires
        upto <= edges@.len(),
        edges_valid(nodes@.len() as int, edges@),
    ensures
        r == has_key(edges@.take(upto as int), nodes@, (a@, b@)),
{
    let mut i: usize = 0;
    while i < upto
        invariant
            upto <= edges@.len(),
            edges_valid(nodes@.len() as int, edges@),
            i <= upto,
            forall|j: int| 0 <= j < i ==> edge_key(#[trigger] edges@[j], nodes@) != (a@, b@),
        decreases upto - i,
    {
        let e = edges[i];
        if nodes[e.dependant_idx].content.path().eq(a) && nodes[e.dependency_idx].content.path().eq(b) {
            assert(edges@.take(upto as int)[i as int] == e);
            assert(edge_key(edges@.take(upto as int)[i as int], nodes@) == (a@, b@));
            return true;
        }
        i = i + 1;
    }
    assert forall|j: int| 0 <= j < edges@.take(upto as int).len() implies edge_key(
        #[trigger] edges@.take(upto as int)[j],
        nodes@,
    ) != (a@, b@) by {
        assert(edges@.take(upto as int)[j] == edges@[j]);
    }
    false
}

/// The nodes of `nodes` that come first with their path and whose path no
/// node of `other` has.
fn fresh_nodes_of(nodes: &Vec<GraphNode>, other: &Vec<GraphNode>) -> (r: Vec<GraphNode>)
    ensures
        r@ == fresh_nodes(nodes@, other@),
{
    let mut r: Vec<GraphNode> = Vec::new();
    let mut i: usize = 0;
    while i < nodes.len()
        invariant
            i <= nodes@.len(),
            r@ == fresh_nodes(nodes@.take(i as int), other@),
        decreases nodes@.len() - i,
    {
        assert(nodes@.take(i + 1).drop_last() =~= nodes@.take(i as int));
        let p = nodes[i].content.path();
        let earlier = has_path_upto(nodes, i, p);
        let elsewhere = has_path_upto(other, other.len(), p);
        assert(other@.take(other@.len() as int) =~= other@);
        if !earlier && !elsewhere {
            r.push(nodes[i].copy());
        }
        i = i + 1;
    }
    assert(nodes@.take(nodes@.len() as int) =~= nodes@);
    r
}

/// The edges of `edges` that come first with their key and whose key no
/// edge of `other` has, told by their contents.
fn fresh_edges_of(
    edges: &Vec<GraphEdge>,
    nodes: &Vec<GraphNode>,
    other: &Vec<GraphEdge>,
    other_nodes: &Vec<GraphNode>,
) -> (r: Vec<GraphEdgeWithContent>)
    requires
        edges_valid(nodes@.len() as int, edges@),
        edges_valid(other_nodes@.len() as int, other@),
    ensures
        r@ == fresh_edges(edges@, nodes@, other@, other_nodes@).map_values(|e: GraphEdge| with_content(e, nodes@)),
{
    let mut r: Vec<GraphEdgeWithContent> = Vec::new();
    let mut i: usize = 0;
    while i < edges.len()
        invariant
            i <= edges@.len(),
            edges_valid(nodes@.len() as int, edges@),
            edges_valid(other_nodes@.len() as int, other@),
            r@ == fresh_edges(edges@.take(i as int), nodes@, other@, other_nodes@).map_values(
                |e: GraphEdge| with_content(e, nodes@),
            ),
        decreases edges@.len() - i,
    {
        assert(edges@.take(i + 1).drop_last() =~= edges@.take(i as int));
        let e = edges[i];
        let a = nodes[e.dependant_idx].content.path();
        let b = nodes[e.dependency_idx].content.path();
        let earlier = has_key_upto(edges, nodes, i, a, b);
        let elsewhere = has_key_upto(other, other_nodes, other.len(), a, b);
        assert(other@.take(other@.len() as int) =~= other@);
        let ghost before = r@;
        if !earlier && !elsewhere {
            r.push(GraphEdgeWithContent {
                dependant_content: share_content(&nodes[e.dependant_idx].content),
                dependency_content: share_content(&nodes[e.dependency_idx].content),
            });
            assert(r@ =~= fresh_edges(edges@.take(i + 1), nodes@, other@, other_nodes@).map_values(
                |e: GraphEdge| with_content(e, nodes@),
            ));
        }
        i = i + 1;
    }
    assert(edges@.take(edges@.len() as int) =~= edges@);
    r
}

/// The nodes whose source tree root changed between the two graphs.
fn modified_nodes_of(old_nodes: &Vec<GraphNode>, new_nodes: &Vec<GraphNode>) -> (r: Vec<ModifiedGraphNode>)
    ensures
        r@.map_values(|m: ModifiedGraphNode| m.node) == modified_nodes_spec(old_nodes@, new_nodes@),
        forall|i: int| 0 <= i < r@.len() ==> (#[trigger] r@[i]).source_tree_root_changed,
{
    let mut r: Vec<ModifiedGraphNode> = Vec::new();
    let mut i: usize = 0;
    while i < old_nodes.len()
        invariant
            i <= old_nodes@.len(),
            r@.map_values(|m: ModifiedGraphNode| m.node) == modified_nodes_spec(old_nodes@.take(i as int), new_nodes@),
            forall|k: int| 0 <= k < r@.len() ==> (#[trigger] r@[k]).source_tree_root_changed,
        decreases old_nodes@.len() - i,
    {
        assert(old_nodes@.take(i + 1).drop_last() =~= old_nodes@.take(i as int));
        let n = &old_nodes[i];
        let earlier = has_path_upto(old_nodes, i, n.content.path());
        let ghost before = r@;
        if !earlier {
            match ContentGraph::find_path_in(new_nodes, n.content.path()) {
                Some(j) => {
                    if !n.content.source_tree_root().eq(new_nodes[j].content.source_tree_root()) {
                        r.push(ModifiedGraphNode { node: new_nodes[j].copy(), source_tree_root_changed: true });
                        assert(r@.map_values(|m: ModifiedGraphNode| m.node) =~= before.map_values(|m: ModifiedGraphNode| m.node).push(new_nodes@[j as int]));
                    }
                },
                None => {},
            }
        }
        i = i + 1;
    }
    assert(old_nodes@.take(old_nodes@.len() as int) =~= old_nodes@);
    r
}

impl ContentGraphDifference {
    /// Compares two graphs by the paths of their contents.
    pub fn from_comparison(
        old_nodes: &Vec<GraphNode>,
        new_nodes: &Vec<GraphNode>,
        old_edges: &Vec<GraphEdge>,
        new_edges: &Vec<GraphEdge>,
    ) -> (r: ContentGraphDifference)
        requires
            edges_valid(old_nodes@.len() as int, old_edges@),
            edges_valid(new_nodes@.len() as int, new_edges@),
        ensures
            difference_holds(r, old_nodes@, new_nodes@, old_edges@, new_edges@),
    {
        ContentGraphDifference {
            added_nodes: fresh_nodes_of(new_nodes, old_nodes),
            removed_nodes: fresh_nodes_of(old_nodes, new_nodes),
            modified_nodes: modified_nodes_of(old_nodes, new_nodes),
            added_edges: fresh_edges_of(new_edges, new_nodes, old_edges, old_nodes),
            removed_edges: fresh_edges_of(old_edges, old_nodes, new_edges, new_nodes),
        }
    }

    pub open spec fn is_empty_spec(&self) -> bool {
        &&& self.added_nodes@.len() == 0
        &&& self.removed_nodes@.len() == 0
        &&& self.modified_nodes@.len() == 0
        &&& self.added_edges@.len() == 0
        &&& self.removed_edges@.len() == 0
    }

    pub fn is_empty(&self) -> (r: bool)
        ensures
            r == self.is_empty_spec(),
            r <==> (self.added_nodes@.len() == 0 && self.removed_nodes@.len() == 0 && self.modified_nodes@.len()
                == 0 && self.added_edges@.len() == 0 && self.removed_edges@.len() == 0),
    {
        self.added_nodes.len() == 0 && self.removed_nodes.len() == 0 && self.modified_nodes.len() == 0
            && self.added_edges.len() == 0 && self.removed_edges.len() == 0
    }
}

impl ContentGraph {
    /// Ends the build (its last step) and tells what changed between the
    /// graph it started from and the graph now.
    pub fn build_finish(&mut self) -> (r: ContentGraphDifference)
        requires
            old(self).well_formed(),
            old(self).building,
        ensures
            final(self).well_formed(),
            difference_holds(r, old(self).prev_nodes@, old(self).nodes@, old(self).prev_edges@, old(self).edges@),
            final(self).prev_nodes@.len() == 0,
            final(self).prev_edges@.len() == 0,
            final(self).repo_nodes@.len() == 0,
            *final(self) == (ContentGraph {
                building: false,
                linking: false,
                repos_added: false,
                next_node: 0,
                prev_nodes: final(self).prev_nodes,
                prev_edges: final(self).prev_edges,
                repo_nodes: final(self).repo_nodes,
                ..*old(self)
            }),
    {
        let r = ContentGraphDifference::from_comparison(&self.prev_nodes, &self.nodes, &self.prev_edges, &self.edges);
        self.prev_nodes.clear();
        self.prev_edges.clear();
        self.repo_nodes.clear();
        self.building = false;
        self.linking = false;
        self.repos_added = false;
        self.next_node = 0;
        r
    }
}

/// The manifest whose diagnostics are dropped with a node that left the
/// graph: that of a project or REDkit project, where its directory no longer
/// exists (`path_exists` is false) or it was not part of the workspace.
pub fn stale_manifest_path(node: &GraphNode, path_exists: bool) -> (r: Option<&AbsPath>)
    ensures
        (path_exists && node.in_workspace) ==> r is None,
        !(path_exists && node.in_workspace) ==> match *node.content {
            Content::Raw(_) => r is None,
            Content::Project(p) => r == Some(&p.manifest_path),
            Content::RedkitProject(p) => r == Some(&p.manifest_path),
        },
{
    if path_exists && node.in_workspace {
        return None;
    }
    match &*node.content {
        Content::Raw(_) => None,
        Content::Project(p) => Some(p.manifest_path()),
        Content::RedkitProject(p) => Some(p.manifest_path()),
    }
}

} // verus!
