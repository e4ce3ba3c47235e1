//! What a build over unchanged inputs does: the steps of a build are
//! functions of what the caller hands them, so building again from the
//! same scans and the same answers of the file system ends where the first
//! build ended, and reports no difference.

use std::sync::Arc;
use vstd::prelude::*;
use crate::content::{Content, ContentScanError};
use super::building::{
    DependencyProbe, LinkState, ScanOutput, link_node, links_workspace, path_requests, started_state,
    with_repositories,
};
use super::difference::{ContentGraphDifference, difference_holds, lemma_difference_with_itself};

verus! {

/// One step of linking (what [`super::ContentGraph::build_link_next`] does to
/// the node at `k`), where `fs` tells what lies at each path that the step
/// probes (what [`super::ContentGraph::build_dependency_paths`] lists).
pub open spec fn link_step(st: LinkState, k: int, fs: spec_fn(Seq<Seq<char>>) -> DependencyProbe) -> LinkState {
    link_node(st, k, path_requests(st.nodes, k).map_values(|p: Seq<Seq<char>>| fs(p)))
}

/// The linked parts of the graph before and after each step of linking:
/// node `k` is linked while it exists, and linking stops once every node
/// was linked.
pub open spec fn link_run(sts: Seq<LinkState>, fs: spec_fn(Seq<Seq<char>>) -> DependencyProbe) -> bool {
    &&& sts.len() > 0
    &&& forall|k: int|
        #![trigger sts[k]]
        0 <= k < sts.len() - 1 ==> k < sts[k].nodes.len() && sts[k + 1] == link_step(sts[k], k, fs)
    &&& sts.len() - 1 >= sts.last().nodes.len()
}

/// The linked parts when linking starts: after the build began and, where
/// some content is in the workspace, the repositories were handed over.
pub open spec fn build_start(
    path_set: bool,
    native: Result<Arc<Content>, ContentScanError>,
    workspace: Seq<ScanOutput>,
    repos: Seq<ScanOutput>,
) -> LinkState {
    let st = started_state(path_set, native, workspace);
    if links_workspace(st.nodes) {
        with_repositories(st, repos)
    } else {
        st
    }
}

/// A whole build from these inputs went through the linked states `sts`:
/// it started at [`build_start`], and linked node after node where some
/// content is in the workspace (and nothing otherwise).
pub open spec fn build_links(
    path_set: bool,
    native: Result<Arc<Content>, ContentScanError>,
    workspace: Seq<ScanOutput>,
    repos: Seq<ScanOutput>,
    fs: spec_fn(Seq<Seq<char>>) -> DependencyProbe,
    sts: Seq<LinkState>,
) -> bool {
    &&& sts.len() > 0
    &&& sts[0] == build_start(path_set, native, workspace, repos)
    &&& if links_workspace(started_state(path_set, native, workspace).nodes) {
        link_run(sts, fs)
    } else {
        sts.len() == 1
    }
}

/// Two runs of linking from the same start, with the same answers of the
/// file system, agree on their first `k + 1` states.
proof fn lemma_link_runs_agree(
    a: Seq<LinkState>,
    b: Seq<LinkState>,
    fs: spec_fn(Seq<Seq<char>>) -> DependencyProbe,
    k: int,
)
    requires
        link_run(a, fs),
        link_run(b, fs),
        a[0] == b[0],
        0 <= k < a.len(),
        k < b.len(),
    ensures
        a[k] == b[k],
    decreases k,
{
    if k > 0 {
        lemma_link_runs_agree(a, b, fs, k - 1);
        assert(a[k - 1] == a[k - 1]);
        assert(b[k - 1] == b[k - 1]);
    }
}

/// Two runs of linking from the same start, with the same answers of the
/// file system, go through the same states.
pub proof fn lemma_link_run_unique(
    a: Seq<LinkState>,
    b: Seq<LinkState>,
    fs: spec_fn(Seq<Seq<char>>) -> DependencyProbe,
)
    requires
        link_run(a, fs),
        link_run(b, fs),
        a[0] == b[0],
    ensures
        a == b,
{
    if a.len() < b.len() {
        let n = a.len() - 1;
        lemma_link_runs_agree(a, b, fs, n);
        assert(b[n] == b[n]);
        assert(false);
    } else if b.len() < a.len() {
        let n = b.len() - 1;
        lemma_link_runs_agree(a, b, fs, n);
        assert(a[n] == a[n]);
        assert(false);
    }
    assert forall|k: int| 0 <= k < a.len() implies a[k] == b[k] by {
        lemma_link_runs_agree(a, b, fs, k);
    }
    assert(a =~= b);
}

/// A build over unchanged inputs changes nothing: a second build from the
/// same native content, workspace and repository scans, with the same
/// answers of the file system, ends with the nodes, edges and errors that
/// the first build ended with, and the difference it reports against the
/// first build's graph is empty.
pub proof fn lemma_rebuild_changes_nothing(
    path_set: bool,
    native: Result<Arc<Content>, ContentScanError>,
    workspace: Seq<ScanOutput>,
    repos: Seq<ScanOutput>,
    fs: spec_fn(Seq<Seq<char>>) -> DependencyProbe,
    first: Seq<LinkState>,
    second: Seq<LinkState>,
    d: ContentGraphDifference,
)
    requires
        build_links(path_set, native, workspace, repos, fs, first),
        build_links(path_set, native, workspace, repos, fs, second),
        difference_holds(d, first.last().nodes, second.last().nodes, first.last().edges, second.last().edges),
    ensures
        second.last() == first.last(),
        d.is_empty_spec(),
{
    if links_workspace(started_state(path_set, native, workspace).nodes) {
        lemma_link_run_unique(first, second, fs);
    }
    lemma_difference_with_itself(d, first.last().nodes, first.last().edges);
}

} // verus!
