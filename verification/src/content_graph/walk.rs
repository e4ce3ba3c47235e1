//! Walking the content graph: direct neighbours and everything reachable
//! from a node.

use vstd::prelude::*;
use vstd::set_lib::{lemma_int_range, lemma_len_subset, set_int_range};
use crate::paths::AbsPath;
use super::{ContentGraph, GraphEdge, GraphEdgeDirection, GraphNode, edges_valid, has_path, is_first_with_path, neighbours};
use super::building::{find_path, lemma_find_path_prefix, lemma_find_path_range};

verus! {

/// One step of a walk in direction `dir` leads from `a` to `b`.
pub open spec fn is_step(edges: Seq<GraphEdge>, dir: GraphEdgeDirection, a: int, b: int) -> bool {
    neighbours(edges, a, dir).contains(b)
}

/// `p` is a walk: each of its nodes is a neighbour of the one before.
pub open spec fn is_walk(edges: Seq<GraphEdge>, dir: GraphEdgeDirection, p: Seq<int>) -> bool {
    &&& p.len() >= 1
    &&& forall|i: int| 0 <= i < p.len() - 1 ==> is_step(edges, dir, #[trigger] p[i], p[i + 1])
}

/// `b` can be reached from `a` in one step or more.
pub open spec fn reachable(edges: Seq<GraphEdge>, dir: GraphEdgeDirection, a: int, b: int) -> bool {
    exists|p: Seq<int>| is_walk(edges, dir, p) && p.len() >= 2 && p[0] == a && p.last() == b
}

/// `b` is one of the values in `s`.
pub open spec fn holds(s: Seq<usize>, b: int) -> bool {
    exists|k: int| 0 <= k < s.len() && s[k] as int == b
}

/// Every neighbour of `w` is in `s`.
pub open spec fn closed_at(edges: Seq<GraphEdge>, dir: GraphEdgeDirection, s: Seq<usize>, w: int) -> bool {
    forall|b: int| #[trigger] neighbours(edges, w, dir).contains(b) ==> holds(s, b)
}

pub proof fn lemma_step_extends(edges: Seq<GraphEdge>, dir: GraphEdgeDirection, a: int, b: int, c: int)
    requires
        a == b || reachable(edges, dir, a, b),
        is_step(edges, dir, b, c),
    ensures
        reachable(edges, dir, a, c),
{
    if a == b {
        let p = seq![a, c];
        assert(p[0] == b && p[1] == c && p.last() == c && p.len() >= 2);
        assert forall|i: int| 0 <= i < p.len() - 1 implies is_step(edges, dir, #[trigger] p[i], p[i + 1]) by {
            assert(i == 0);
        }
        assert(is_walk(edges, dir, p));
    } else {
        let p = choose|p: Seq<int>| is_walk(edges, dir, p) && p.len() >= 2 && p[0] == a && p.last() == b;
        let q = p.push(c);
        assert forall|i: int| 0 <= i < q.len() - 1 implies is_step(edges, dir, #[trigger] q[i], q[i + 1]) by {
            if i < p.len() - 1 {
                assert(q[i] == p[i] && q[i + 1] == p[i + 1]);
            }
        }
        assert(is_walk(edges, dir, q));
        assert(q[0] == a && q.last() == c && q.len() >= 2);
    }
}

/// A set of nodes that holds the neighbours of `start` and of each of its
/// members holds every node reachable from `start`.
pub proof fn lemma_closed_holds_reachable(
    edges: Seq<GraphEdge>,
    dir: GraphEdgeDirection,
    start: int,
    s: Seq<usize>,
    p: Seq<int>,
)
    requires
        is_walk(edges, dir, p),
        p.len() >= 2,
        p[0] == start,
        closed_at(edges, dir, s, start),
        forall|k: int| 0 <= k < s.len() ==> closed_at(edges, dir, s, #[trigger] s[k] as int),
    ensures
        holds(s, p.last()),
    decreases p.len(),
{
    let q = p.drop_last();
    assert(is_step(edges, dir, p[p.len() - 2], p[p.len() - 1]));
    if p.len() == 2 {
        assert(neighbours(edges, start, dir).contains(p.last()));
    } else {
        assert forall|i: int| 0 <= i < q.len() - 1 implies is_step(edges, dir, #[trigger] q[i], q[i + 1]) by {
            assert(q[i] == p[i] && q[i + 1] == p[i + 1]);
        }
        lemma_closed_holds_reachable(edges, dir, start, s, q);
        let k = choose|k: int| 0 <= k < s.len() && s[k] as int == q.last();
        assert(closed_at(edges, dir, s, s[k] as int));
        assert(neighbours(edges, q.last(), dir).contains(p.last()));
    }
}

pub proof fn lemma_distinct_bounded(s: Seq<usize>, n: int)
    requires
        n >= 0,
        s.no_duplicates(),
        forall|k: int| 0 <= k < s.len() ==> (#[trigger] s[k] as int) < n,
    ensures
        s.len() <= n,
{
    let t = s.map_values(|x: usize| x as int);
    assert(t.no_duplicates()) by {
        assert forall|a: int, b: int| 0 <= a < t.len() && 0 <= b < t.len() && a != b implies t[a] != t[b] by {
            assert(s[a] != s[b]);
        }
    }
    t.unique_seq_to_set();
    lemma_int_range(0, n);
    assert(t.to_set().subset_of(set_int_range(0, n))) by {
        assert forall|x: int| t.to_set().contains(x) implies set_int_range(0, n).contains(x) by {
            let k = choose|k: int| 0 <= k < t.len() && t[k] == x;
            assert(s[k] as int == x);
        }
    }
    lemma_len_subset(t.to_set(), set_int_range(0, n));
}


/// Depth-first visit of `idx`: its neighbours in walking order, each not
/// yet visited one added and visited in turn before the next. `fuel` bounds
/// the depth; with more fuel than unvisited nodes it changes nothing.
pub open spec fn dfs_visit(edges: Seq<GraphEdge>, dir: GraphEdgeDirection, fuel: nat, idx: int, visited: Seq<usize>) -> Seq<usize>
    decreases fuel, 0int, 0int,
{
    if fuel == 0 {
        visited
    } else {
        dfs_nbs(edges, dir, (fuel - 1) as nat, idx, 0, visited)
    }
}

/// The depth-first visit of the neighbours of `idx` from the `j`-th on.
pub open spec fn dfs_nbs(edges: Seq<GraphEdge>, dir: GraphEdgeDirection, fuel: nat, idx: int, j: int, visited: Seq<usize>) -> Seq<usize>
    decreases fuel, 1int, neighbours(edges, idx, dir).len() - j,
{
    let nbs = neighbours(edges, idx, dir);
    if j < 0 || j >= nbs.len() {
        visited
    } else if holds(visited, nbs[j]) {
        dfs_nbs(edges, dir, fuel, idx, j + 1, visited)
    } else {
        dfs_nbs(edges, dir, fuel, idx, j + 1, dfs_visit(edges, dir, fuel, nbs[j], visited.push(nbs[j] as usize)))
    }
}

/// Visited nodes: distinct nodes of a graph with `n` nodes.
pub open spec fn visit_ok(n: int, s: Seq<usize>) -> bool {
    &&& 0 <= n <= usize::MAX
    &&& s.no_duplicates()
    &&& forall|k: int| 0 <= k < s.len() ==> (#[trigger] s[k] as int) < n
}

pub proof fn lemma_neighbours_in_range(edges: Seq<GraphEdge>, n: int, idx: int, dir: GraphEdgeDirection)
    requires
        edges_valid(n, edges),
    ensures
        forall|k: int| 0 <= k < neighbours(edges, idx, dir).len() ==> 0 <= #[trigger] neighbours(edges, idx, dir)[k] < n,
{
    super::lemma_neighbours_bounded(edges, n, idx, dir);
}

proof fn lemma_push_visit_ok(n: int, s: Seq<usize>, x: int)
    requires
        visit_ok(n, s),
        0 <= x < n,
        !holds(s, x),
    ensures
        visit_ok(n, s.push(x as usize)),
{
    let t = s.push(x as usize);
    assert forall|a: int, b: int| 0 <= a < t.len() && 0 <= b < t.len() && a != b implies t[a] != t[b] by {
        if a < s.len() && b < s.len() {
            assert(t[a] == s[a] && t[b] == s[b]);
        } else if a < s.len() {
            assert(t[a] == s[a]);
            if s[a] as int == x {
                assert(holds(s, x));
            }
        } else {
            assert(t[b] == s[b]);
            if s[b] as int == x {
                assert(holds(s, x));
            }
        }
    }
}

/// A visit keeps what was visited before it, and visits distinct nodes of
/// the graph.
pub proof fn lemma_dfs_visit_extends(edges: Seq<GraphEdge>, dir: GraphEdgeDirection, n: int, fuel: nat, idx: int, visited: Seq<usize>)
    requires
        edges_valid(n, edges),
        visit_ok(n, visited),
    ensures
        visit_ok(n, dfs_visit(edges, dir, fuel, idx, visited)),
        dfs_visit(edges, dir, fuel, idx, visited).len() >= visited.len(),
        dfs_visit(edges, dir, fuel, idx, visited).subrange(0, visited.len() as int) == visited,
    decreases fuel, 0int, 0int,
{
    if fuel == 0 {
        assert(visited.subrange(0, visited.len() as int) =~= visited);
    } else {
        lemma_dfs_nbs_extends(edges, dir, n, (fuel - 1) as nat, idx, 0, visited);
    }
}

pub proof fn lemma_dfs_nbs_extends(edges: Seq<GraphEdge>, dir: GraphEdgeDirection, n: int, fuel: nat, idx: int, j: int, visited: Seq<usize>)
    requires
        edges_valid(n, edges),
        visit_ok(n, visited),
    ensures
        visit_ok(n, dfs_nbs(edges, dir, fuel, idx, j, visited)),
        dfs_nbs(edges, dir, fuel, idx, j, visited).len() >= visited.len(),
        dfs_nbs(edges, dir, fuel, idx, j, visited).subrange(0, visited.len() as int) == visited,
    decreases fuel, 1int, neighbours(edges, idx, dir).len() - j,
{
    let nbs = neighbours(edges, idx, dir);
    if j < 0 || j >= nbs.len() {
        assert(visited.subrange(0, visited.len() as int) =~= visited);
    } else if holds(visited, nbs[j]) {
        lemma_dfs_nbs_extends(edges, dir, n, fuel, idx, j + 1, visited);
    } else {
        lemma_neighbours_in_range(edges, n, idx, dir);
        let pushed = visited.push(nbs[j] as usize);
        lemma_push_visit_ok(n, visited, nbs[j]);
        lemma_dfs_visit_extends(edges, dir, n, fuel, nbs[j], pushed);
        let v2 = dfs_visit(edges, dir, fuel, nbs[j], pushed);
        lemma_dfs_nbs_extends(edges, dir, n, fuel, idx, j + 1, v2);
        let r = dfs_nbs(edges, dir, fuel, idx, j + 1, v2);
        assert(r.subrange(0, visited.len() as int) =~= visited) by {
            assert forall|k: int| 0 <= k < visited.len() implies r[k] == visited[k] by {
                assert(r.subrange(0, v2.len() as int)[k] == v2[k]);
                assert(v2.subrange(0, pushed.len() as int)[k] == pushed[k]);
            }
        }
    }
}

/// Any fuel beyond the number of unvisited nodes gives the same visit.
pub proof fn lemma_dfs_visit_fuel(edges: Seq<GraphEdge>, dir: GraphEdgeDirection, n: int, f1: nat, f2: nat, idx: int, visited: Seq<usize>)
    requires
        edges_valid(n, edges),
        visit_ok(n, visited),
        f1 > n - visited.len(),
        f2 > n - visited.len(),
    ensures
        dfs_visit(edges, dir, f1, idx, visited) == dfs_visit(edges, dir, f2, idx, visited),
    decreases f1, 0int, 0int,
{
    lemma_distinct_bounded(visited, n);
    lemma_dfs_nbs_fuel(edges, dir, n, (f1 - 1) as nat, (f2 - 1) as nat, idx, 0, visited);
}

pub proof fn lemma_dfs_nbs_fuel(edges: Seq<GraphEdge>, dir: GraphEdgeDirection, n: int, f1: nat, f2: nat, idx: int, j: int, visited: Seq<usize>)
    requires
        edges_valid(n, edges),
        visit_ok(n, visited),
        f1 >= n - visited.len(),
        f2 >= n - visited.len(),
    ensures
        dfs_nbs(edges, dir, f1, idx, j, visited) == dfs_nbs(edges, dir, f2, idx, j, visited),
    decreases f1, 1int, neighbours(edges, idx, dir).len() - j,
{
    let nbs = neighbours(edges, idx, dir);
    if j < 0 || j >= nbs.len() {
    } else if holds(visited, nbs[j]) {
        lemma_dfs_nbs_fuel(edges, dir, n, f1, f2, idx, j + 1, visited);
    } else {
        lemma_neighbours_in_range(edges, n, idx, dir);
        let pushed = visited.push(nbs[j] as usize);
        lemma_push_visit_ok(n, visited, nbs[j]);
        lemma_distinct_bounded(visited, n);
        lemma_dfs_visit_fuel(edges, dir, n, f1, f2, nbs[j], pushed);
        let v2 = dfs_visit(edges, dir, f1, nbs[j], pushed);
        lemma_dfs_visit_extends(edges, dir, n, f1, nbs[j], pushed);
        lemma_dfs_nbs_fuel(edges, dir, n, f1, f2, idx, j + 1, v2);
    }
}


/// `s` without the node `v`, in order.
pub open spec fn without_node(s: Seq<usize>, v: int) -> Seq<usize>
    decreases s.len(),
{
    if s.len() == 0 {
        Seq::empty()
    } else {
        let r = without_node(s.drop_last(), v);
        if s.last() as int == v {
            r
        } else {
            r.push(s.last())
        }
    }
}

/// What walking from the first node with path `path` in direction `dir`
/// gives, in order: a depth-first visit, each node's neighbours taken in
/// walking order (towards dependencies: by priority), leaving out the node
/// itself; nothing when no node has the path.
pub open spec fn walk_order(nodes: Seq<GraphNode>, edges: Seq<GraphEdge>, path: Seq<Seq<char>>, dir: GraphEdgeDirection) -> Seq<usize> {
    let idx = find_path(nodes, path);
    if idx >= 0 {
        without_node(dfs_visit(edges, dir, (nodes.len() + 1) as nat, idx, Seq::empty()), idx)
    } else {
        Seq::empty()
    }
}

pub proof fn lemma_first_with_path_found(nodes: Seq<GraphNode>, path: Seq<Seq<char>>, i: int)
    requires
        is_first_with_path(nodes, path, i),
    ensures
        find_path(nodes, path) == i,
{
    lemma_find_path_range(nodes.take(i), path);
    if find_path(nodes.take(i), path) >= 0 {
        let f = find_path(nodes.take(i), path);
        assert(nodes.take(i)[f] == nodes[f]);
    }
    assert(nodes.take(i + 1 - 1) =~= nodes.take(i));
    lemma_find_path_prefix(nodes, path, i + 1);
}

pub proof fn lemma_no_path_not_found(nodes: Seq<GraphNode>, path: Seq<Seq<char>>)
    requires
        !has_path(nodes, path),
    ensures
        find_path(nodes, path) < 0,
{
    lemma_find_path_range(nodes, path);
}


/// `indices` without `idx`, in order.
fn leave_out(indices: &Vec<usize>, idx: usize) -> (out: Vec<usize>)
    requires
        indices@.no_duplicates(),
    ensures
        out@ == without_node(indices@, idx as int),
        out@.no_duplicates(),
        forall|q: int| 0 <= q < out@.len() ==> #[trigger] out@[q] != idx,
        forall|q: int| 0 <= q < out@.len() ==> holds(indices@, #[trigger] out@[q] as int),
        forall|q: int| 0 <= q < indices@.len() && indices@[q] != idx ==> holds(out@, #[trigger] indices@[q] as int),
{
    let ghost all = indices@;
    let mut out: Vec<usize> = Vec::new();
    let mut k: usize = 0;
    while k < indices.len()
        invariant
            k <= indices@.len(),
            indices@ == all,
            all.no_duplicates(),
            forall|q: int| 0 <= q < out@.len() ==> #[trigger] out@[q] != idx,
            forall|q: int| 0 <= q < out@.len() ==> holds(all, #[trigger] out@[q] as int),
            forall|q: int| 0 <= q < k && all[q] != idx ==> holds(out@, #[trigger] all[q] as int),
            out@.no_duplicates(),
            forall|q: int, p: int| 0 <= q < out@.len() && k <= p < all.len() ==> out@[q] != all[p],
            out@ == without_node(all.take(k as int), idx as int),
        decreases indices@.len() - k,
    {
        assert(all.take(k + 1).drop_last() =~= all.take(k as int));
        let v = indices[k];
        let ghost before = out@;
        if v != idx {
            out.push(v);
            assert forall|a: int, b: int| 0 <= a < out@.len() && 0 <= b < out@.len() && a != b implies out@[a] != out@[b] by {
                if a < before.len() && b < before.len() {
                } else if a < before.len() {
                    assert(out@[b] == all[k as int]);
                } else {
                    assert(out@[a] == all[k as int]);
                }
            }
            assert(holds(out@, v as int)) by {
                assert(out@[before.len() as int] == v);
            }
        }
        assert forall|q: int| 0 <= q < k + 1 && all[q] != idx implies holds(out@, #[trigger] all[q] as int) by {
            if q < k {
                let m = choose|m: int| 0 <= m < before.len() && before[m] as int == all[q] as int;
                assert(out@[m] == before[m]);
            }
        }
        k = k + 1;
    }
    assert(all.take(all.len() as int) =~= all);
    out
}

pub fn contains_index(v: &Vec<usize>, x: usize) -> (r: bool)
    ensures
        r == holds(v@, x as int),
        r == v@.contains(x),
{
    let mut k: usize = 0;
    while k < v.len()
        invariant
            k <= v@.len(),
            forall|j: int| 0 <= j < k ==> v@[j] != x,
        decreases v@.len() - k,
    {
        if v[k] == x {
            assert(v@[k as int] == x);
            return true;
        }
        k = k + 1;
    }
    assert(!holds(v@, x as int)) by {
        if holds(v@, x as int) {
            let j = choose|j: int| 0 <= j < v@.len() && v@[j] as int == x as int;
            assert(v@[j] == x);
        }
    }
    false
}

/// `r` is what walking from the node with path `path` in direction `dir`
/// gives: nothing when no node has that path; otherwise, for the first node
/// with it, every node reachable from it in one step or more, once each,
/// leaving out the node itself.
pub open spec fn walk_result(nodes: Seq<GraphNode>, edges: Seq<GraphEdge>, path: Seq<Seq<char>>, dir: GraphEdgeDirection, r: Seq<usize>) -> bool {
    &&& !has_path(nodes, path) ==> r.len() == 0
    &&& forall|idx: int| #[trigger] is_first_with_path(nodes, path, idx) ==> {
        &&& r.no_duplicates()
        &&& !holds(r, idx)
        &&& forall|k: int| 0 <= k < r.len() ==> reachable(edges, dir, idx, #[trigger] r[k] as int)
        &&& forall|b: int| b != idx && reachable(edges, dir, idx, b) ==> holds(r, b)
    }
}

/// Node indices handed out one after another.
pub struct Iter<'g> {
    pub graph: &'g ContentGraph,
    pub node_indices: Vec<usize>,
    /// index of node_indices, not of graph.nodes
    pub i: usize,
}

impl<'g> Iter<'g> {
    pub open spec fn valid(&self) -> bool {
        &&& self.i <= self.node_indices@.len()
        &&& forall|k: int| 0 <= k < self.node_indices@.len() ==> #[trigger] self.node_indices@[k] < self.graph.nodes@.len()
    }

    pub fn new(graph: &'g ContentGraph, node_indices: Vec<usize>) -> (r: Iter<'g>)
        requires
            forall|k: int| 0 <= k < node_indices@.len() ==> #[trigger] node_indices@[k] < graph.nodes@.len(),
        ensures
            r.graph == graph,
            r.node_indices == node_indices,
            r.i == 0,
            r.valid(),
    {
        Iter { graph, node_indices, i: 0 }
    }

    fn current_node_idx(&self) -> (r: Option<usize>)
        ensures
            self.node_indices@.len() <= usize::MAX,
            self.i < self.node_indices@.len() ==> r == Some(self.node_indices@[self.i as int]),
            self.i >= self.node_indices@.len() ==> r is None,
    {
        if self.i < self.node_indices.len() {
            Some(self.node_indices[self.i])
        } else {
            None
        }
    }

    /// The next node, if any is left.
    pub fn next(&mut self) -> (r: Option<&'g GraphNode>)
        requires
            old(self).valid(),
        ensures
            final(self).valid(),
            final(self).graph == old(self).graph,
            final(self).node_indices == old(self).node_indices,
            old(self).i < old(self).node_indices@.len() ==> final(self).i == old(self).i + 1
                && r == Some(&old(self).graph.nodes@[old(self).node_indices@[old(self).i as int] as int]),
            old(self).i >= old(self).node_indices@.len() ==> final(self).i == old(self).i && r is None,
    {
        match self.current_node_idx() {
            Some(idx) => {
                let g: &'g ContentGraph = self.graph;
                self.i = self.i + 1;
                Some(&g.nodes[idx])
            },
            None => None,
        }
    }

    /// How many nodes are left.
    pub fn count(&self) -> (r: usize)
        requires
            self.valid(),
        ensures
            r == self.node_indices@.len() - self.i,
    {
        self.node_indices.len() - self.i
    }

    /// The nodes that are left, in order.
    pub fn indices(&self) -> (r: &Vec<usize>)
        ensures
            r == &self.node_indices,
    {
        &self.node_indices
    }
}

impl ContentGraph {
    /// Iterator over all nodes in the graph.
    pub fn nodes<'g>(&'g self) -> (r: Iter<'g>)
        ensures
            r.graph == self,
            r.i == 0,
            r.valid(),
            r.node_indices@.len() == self.nodes@.len(),
            forall|k: int| 0 <= k < self.nodes@.len() ==> #[trigger] r.node_indices@[k] == k,
    {
        let mut indices: Vec<usize> = Vec::new();
        let mut k: usize = 0;
        while k < self.nodes.len()
            invariant
                k <= self.nodes@.len(),
                indices@.len() == k,
                forall|q: int| 0 <= q < k ==> #[trigger] indices@[q] == q,
            decreases self.nodes@.len() - k,
        {
            indices.push(k);
            k = k + 1;
        }
        Iter::new(self, indices)
    }

    /// Iterate over direct dependencies of specified content. Order of nodes depends on dependency priority.
    /// Iterator will be empty when either the specified content doesn't exist or it has no dependencies.
    /// If a circular dependency occurs a reference to the parameter content will not be included.
    pub fn direct_dependencies<'g>(&'g self, content_path: &AbsPath) -> (r: Iter<'g>)
        requires
            self.well_formed(),
        ensures
            r.graph == self,
            r.i == 0,
            r.valid(),
            !has_path(self.nodes@, content_path@) ==> r.node_indices@.len() == 0,
            forall|idx: int| is_first_with_path(self.nodes@, content_path@, idx) ==>
                r.node_indices@.map_values(|x: usize| x as int) == neighbours(self.edges@, idx, GraphEdgeDirection::Dependencies),
    {
        self.direct_in_direction(content_path, GraphEdgeDirection::Dependencies)
    }

    /// Iterate over direct dependants of specified content.
    /// Iterator will be empty when either the specified content doesn't exist or it has no dependants.
    /// If a circular dependency occurs a reference to the parameter content will not be included.
    pub fn direct_dependants<'g>(&'g self, content_path: &AbsPath) -> (r: Iter<'g>)
        requires
            self.well_formed(),
        ensures
            r.graph == self,
            r.i == 0,
            r.valid(),
            !has_path(self.nodes@, content_path@) ==> r.node_indices@.len() == 0,
            forall|idx: int| is_first_with_path(self.nodes@, content_path@, idx) ==>
                r.node_indices@.map_values(|x: usize| x as int) == neighbours(self.edges@, idx, GraphEdgeDirection::Dependants),
    {
        self.direct_in_direction(content_path, GraphEdgeDirection::Dependants)
    }

    fn direct_in_direction<'g>(&'g self, content_path: &AbsPath, dir: GraphEdgeDirection) -> (r: Iter<'g>)
        requires
            self.well_formed(),
        ensures
            r.graph == self,
            r.i == 0,
            r.valid(),
            !has_path(self.nodes@, content_path@) ==> r.node_indices@.len() == 0,
            forall|idx: int| is_first_with_path(self.nodes@, content_path@, idx) ==>
                r.node_indices@.map_values(|x: usize| x as int) == neighbours(self.edges@, idx, dir),
    {
        match self.get_node_index_by_path(content_path) {
            Some(idx) => {
                let indices = self.neighbour_indices_in_direction(idx, dir);
                proof {
                    assert forall|j: int| is_first_with_path(self.nodes@, content_path@, j) implies j == idx by {
                        if j < idx {
                            assert(self.nodes@[j].path_v() != content_path@);
                        }
                        if j > idx {
                            assert(self.nodes@[idx as int].path_v() != content_path@);
                        }
                    }
                }
                Iter::new(self, indices)
            },
            None => Iter::new(self, Vec::new()),
        }
    }

    /// Adds to `indices` every node reachable from `idx` that it does not
    /// hold yet, in depth-first order, neighbours taken in walking order.
    fn collect_relatives(&self, idx: usize, dir: GraphEdgeDirection, indices: &mut Vec<usize>, Ghost(start): Ghost<int>)
        requires
            edges_valid(self.nodes@.len() as int, self.edges@),
            idx < self.nodes@.len(),
            old(indices)@.no_duplicates(),
            forall|k: int| 0 <= k < old(indices)@.len() ==> #[trigger] old(indices)@[k] < self.nodes@.len(),
            idx as int == start || reachable(self.edges@, dir, start, idx as int),
            forall|k: int| 0 <= k < old(indices)@.len() ==> reachable(self.edges@, dir, start, #[trigger] old(indices)@[k] as int),
        ensures
            final(indices)@.len() >= old(indices)@.len(),
            final(indices)@.subrange(0, old(indices)@.len() as int) == old(indices)@,
            final(indices)@.no_duplicates(),
            forall|k: int| 0 <= k < final(indices)@.len() ==> #[trigger] final(indices)@[k] < self.nodes@.len(),
            forall|k: int| 0 <= k < final(indices)@.len() ==> reachable(self.edges@, dir, start, #[trigger] final(indices)@[k] as int),
            closed_at(self.edges@, dir, final(indices)@, idx as int),
            forall|k: int| old(indices)@.len() <= k < final(indices)@.len() ==> closed_at(self.edges@, dir, final(indices)@, #[trigger] final(indices)@[k] as int),
            final(indices)@ == dfs_visit(self.edges@, dir, (self.nodes@.len() - old(indices)@.len() + 1) as nat, idx as int, old(indices)@),
        decreases self.nodes@.len() - old(indices)@.len(),
    {
        let ghost n = self.nodes@.len() as int;
        let ghost orig = indices@;
        proof {
            lemma_distinct_bounded(orig, n);
        }
        let ghost fuel = (n - orig.len()) as nat;
        let node_count = self.nodes.len();
        assert(n == node_count as int);
        let nbs = self.neighbour_indices_in_direction(idx, dir);
        let mut j: usize = 0;
        while j < nbs.len()
            invariant
                edges_valid(self.nodes@.len() as int, self.edges@),
                n == self.nodes@.len(),
                idx < self.nodes@.len(),
                nbs@.map_values(|x: usize| x as int) == neighbours(self.edges@, idx as int, dir),
                forall|q: int| 0 <= q < nbs@.len() ==> #[trigger] nbs@[q] < self.nodes@.len(),
                j <= nbs@.len(),
                orig == old(indices)@,
                indices@.len() >= orig.len(),
                indices@.subrange(0, orig.len() as int) == orig,
                indices@.no_duplicates(),
                forall|k: int| 0 <= k < indices@.len() ==> #[trigger] indices@[k] < self.nodes@.len(),
                idx as int == start || reachable(self.edges@, dir, start, idx as int),
                forall|k: int| 0 <= k < indices@.len() ==> reachable(self.edges@, dir, start, #[trigger] indices@[k] as int),
                forall|q: int| 0 <= q < j ==> holds(indices@, #[trigger] nbs@[q] as int),
                forall|k: int| orig.len() <= k < indices@.len() ==> closed_at(self.edges@, dir, indices@, #[trigger] indices@[k] as int),
                fuel == n - orig.len(),
                n <= usize::MAX,
                dfs_nbs(self.edges@, dir, fuel, idx as int, 0, orig) == dfs_nbs(self.edges@, dir, fuel, idx as int, j as int, indices@),
            decreases nbs@.len() - j,
        {
            let nb = nbs[j];
            assert(neighbours(self.edges@, idx as int, dir)[j as int] == nb as int) by {
                assert(nbs@.map_values(|x: usize| x as int)[j as int] == nb as int);
            }
            let ghost before = indices@;
            assert(neighbours(self.edges@, idx as int, dir).contains(nb as int)) by {
                assert(nbs@.map_values(|x: usize| x as int)[j as int] == nb as int);
            }
            if !contains_index(indices, nb) {
                proof {
                    lemma_step_extends(self.edges@, dir, start, idx as int, nb as int);
                }
                indices.push(nb);
                proof {
                    assert(indices@.no_duplicates()) by {
                        assert forall|a: int, b: int| 0 <= a < indices@.len() && 0 <= b < indices@.len() && a != b implies indices@[a] != indices@[b] by {
                            if a < before.len() && b < before.len() {
                                assert(indices@[a] == before[a] && indices@[b] == before[b]);
                            } else if a < before.len() {
                                assert(indices@[a] == before[a]);
                                if before[a] == nb {
                                    assert(holds(before, nb as int));
                                }
                            } else {
                                assert(indices@[b] == before[b]);
                                if before[b] == nb {
                                    assert(holds(before, nb as int));
                                }
                            }
                        }
                    }
                    lemma_distinct_bounded(indices@, n);
                    assert(indices@.subrange(0, orig.len() as int) =~= orig) by {
                        assert(before.subrange(0, orig.len() as int) == orig);
                    }
                }
                let ghost pushed = indices@;
                assert(n - pushed.len() < n - orig.len());
                assert(n - pushed.len() >= 0);
                self.collect_relatives(nb, dir, indices, Ghost(start));
                proof {
                    let fin = indices@;
                    assert(pushed == before.push(nb));
                    assert(visit_ok(n, pushed));
                    lemma_dfs_visit_fuel(self.edges@, dir, n, fuel, (n - pushed.len() + 1) as nat, nb as int, pushed);
                    assert(fin.subrange(0, orig.len() as int) =~= orig) by {
                        assert(fin.subrange(0, pushed.len() as int) == pushed);
                        assert forall|k: int| 0 <= k < orig.len() implies fin[k] == orig[k] by {
                            assert(fin.subrange(0, pushed.len() as int)[k] == pushed[k]);
                            assert(pushed[k] == before[k]);
                            assert(before.subrange(0, orig.len() as int)[k] == orig[k]);
                        }
                    }
                    assert forall|q: int| 0 <= q <= j implies holds(fin, #[trigger] nbs@[q] as int) by {
                        if q < j {
                            let k = choose|k: int| 0 <= k < before.len() && before[k] as int == nbs@[q] as int;
                            assert(fin.subrange(0, pushed.len() as int)[k] == pushed[k]);
                        } else {
                            assert(fin.subrange(0, pushed.len() as int)[before.len() as int] == pushed[before.len() as int]);
                        }
                    }
                    assert forall|k: int| orig.len() <= k < fin.len() implies closed_at(self.edges@, dir, fin, #[trigger] fin[k] as int) by {
                        if k < before.len() {
                            assert(fin.subrange(0, pushed.len() as int)[k] == pushed[k]);
                            assert(closed_at(self.edges@, dir, before, before[k] as int));
                            assert forall|b: int| #[trigger] neighbours(self.edges@, fin[k] as int, dir).contains(b) implies holds(fin, b) by {
                                let m = choose|m: int| 0 <= m < before.len() && before[m] as int == b;
                                assert(fin.subrange(0, pushed.len() as int)[m] == pushed[m]);
                            }
                        } else if k == before.len() {
                            assert(fin.subrange(0, pushed.len() as int)[k] == pushed[k]);
                        }
                    }
                }
            } else {
                proof {
                    assert(holds(indices@, nb as int));
                }
            }
            j = j + 1;
        }
        proof {
            assert(dfs_visit(self.edges@, dir, (fuel + 1) as nat, idx as int, orig) == dfs_nbs(self.edges@, dir, fuel, idx as int, 0, orig));
            assert forall|b: int| #[trigger] neighbours(self.edges@, idx as int, dir).contains(b) implies holds(indices@, b) by {
                let q = choose|q: int| 0 <= q < neighbours(self.edges@, idx as int, dir).len() && neighbours(self.edges@, idx as int, dir)[q] == b;
                assert(nbs@.map_values(|x: usize| x as int)[q] == nbs@[q] as int);
            }
        }
    }

    fn walk_in_direction<'g>(&'g self, content_path: &AbsPath, dir: GraphEdgeDirection) -> (r: Iter<'g>)
        requires
            self.well_formed(),
        ensures
            r.graph == self,
            r.i == 0,
            r.valid(),
            walk_result(self.nodes@, self.edges@, content_path@, dir, r.node_indices@),
            r.node_indices@ == walk_order(self.nodes@, self.edges@, content_path@, dir),
    {
        match self.get_node_index_by_path(content_path) {
            Some(idx) => {
                let mut indices: Vec<usize> = Vec::new();
                proof {
                    lemma_first_with_path_found(self.nodes@, content_path@, idx as int);
                }
                self.collect_relatives(idx, dir, &mut indices, Ghost(idx as int));
                let ghost all = indices@;
                // leave out the starting node itself
                let out = leave_out(&indices, idx);
                proof {
                    assert forall|q: int| 0 <= q < out@.len() implies #[trigger] out@[q] < self.nodes@.len() by {
                        let m = choose|m: int| 0 <= m < all.len() && all[m] as int == out@[q] as int;
                    }
                    assert forall|j: int| is_first_with_path(self.nodes@, content_path@, j) implies j == idx by {
                        if j < idx {
                            assert(self.nodes@[j].path_v() != content_path@);
                        }
                        if j > idx {
                            assert(self.nodes@[idx as int].path_v() != content_path@);
                        }
                    }
                    assert forall|q: int| 0 <= q < out@.len() implies reachable(self.edges@, dir, idx as int, #[trigger] out@[q] as int) by {
                        let m = choose|m: int| 0 <= m < all.len() && all[m] as int == out@[q] as int;
                    }
                    assert forall|b: int| b != idx && reachable(self.edges@, dir, idx as int, b) implies holds(out@, b) by {
                        let p = choose|p: Seq<int>| is_walk(self.edges@, dir, p) && p.len() >= 2 && p[0] == idx as int && p.last() == b;
                        assert forall|k: int| 0 <= k < all.len() implies closed_at(self.edges@, dir, all, #[trigger] all[k] as int) by {}
                        lemma_closed_holds_reachable(self.edges@, dir, idx as int, all, p);
                        let m = choose|m: int| 0 <= m < all.len() && all[m] as int == b;
                        assert(all[m] != idx);
                    }
                    assert(!holds(out@, idx as int)) by {
                        if holds(out@, idx as int) {
                            let m = choose|m: int| 0 <= m < out@.len() && out@[m] as int == idx as int;
                            assert(out@[m] != idx);
                        }
                    }
                }
                Iter::new(self, out)
            },
            None => {
                proof {
                    lemma_no_path_not_found(self.nodes@, content_path@);
                }
                Iter::new(self, Vec::new())
            },
        }
    }

    /// Iterate over all content nodes that are direct or indirect dependencies to the specified content.
    /// Order of nodes depends on dependency priority.
    /// Iterator will be empty when either the specified content doesn't exist or it has no dependencies.
    /// If a circular dependency occurs a reference to the parameter content will not be included.
    pub fn walk_dependencies<'g>(&'g self, content_path: &AbsPath) -> (r: Iter<'g>)
        requires
            self.well_formed(),
        ensures
            r.graph == self,
            r.i == 0,
            r.valid(),
            walk_result(self.nodes@, self.edges@, content_path@, GraphEdgeDirection::Dependencies, r.node_indices@),
            r.node_indices@ == walk_order(self.nodes@, self.edges@, content_path@, GraphEdgeDirection::Dependencies),
    {
        self.walk_in_direction(content_path, GraphEdgeDirection::Dependencies)
    }

    /// Iterate over all content nodes that are direct or indirect dependants of the specified content.
    /// Iterator will be empty when either the specified content doesn't exist or it has no dependants.
    /// If a circular dependency occurs a reference to the parameter content will not be included.
    pub fn walk_dependants<'g>(&'g self, content_path: &AbsPath) -> (r: Iter<'g>)
        requires
            self.well_formed(),
        ensures
            r.graph == self,
            r.i == 0,
            r.valid(),
            walk_result(self.nodes@, self.edges@, content_path@, GraphEdgeDirection::Dependants, r.node_indices@),
            r.node_indices@ == walk_order(self.nodes@, self.edges@, content_path@, GraphEdgeDirection::Dependants),
    {
        self.walk_in_direction(content_path, GraphEdgeDirection::Dependants)
    }
}

} // verus!
