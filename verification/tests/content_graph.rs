use std::sync::Arc;
use witcherscript_ide::content::{Content, ContentScanError, ProjectDirectory, RawContentDirectory, RedkitProjectDirectory};
use witcherscript_ide::content_graph::building::{DependencyProbe, ScanOutput};
use witcherscript_ide::content_graph::walk::Iter;
use witcherscript_ide::content_graph::difference::stale_manifest_path;
use witcherscript_ide::content_graph::{ContentGraph, ContentGraphError, GraphNode};
use witcherscript_ide::content_scanner::ContentScanner;
use witcherscript_ide::manifest::{Dependencies, DependencyEntry, DependencyValue, Manifest};
use witcherscript_ide::paths::{AbsPath, PathBuf, PathComponent};
use witcherscript_ide::redkit::RedkitManifest;
use witcherscript_ide::text::Range;

fn abs(parts: &[&str]) -> AbsPath {
    AbsPath { components: parts.iter().map(|s| s.to_string()).collect() }
}

fn test_assets() -> AbsPath {
    abs(&["home", "test_assets", "project"])
}

fn join(base: &AbsPath, rel: &str) -> AbsPath {
    let mut cs = base.components.clone();
    for p in rel.split('/') {
        cs.push(p.to_string());
    }
    AbsPath { components: cs }
}

fn rel_path(s: &str) -> PathBuf {
    let components = s
        .split('/')
        .map(|p| match p {
            "." => PathComponent::CurDir,
            ".." => PathComponent::ParentDir,
            other => PathComponent::Normal(other.to_string()),
        })
        .collect();
    PathBuf { is_absolute: false, components }
}

fn manifest(name: &str, scripts_root: Option<&str>, deps: Vec<(&str, DependencyValue)>) -> Manifest {
    Manifest {
        content: witcherscript_ide::manifest::Content {
            name: name.to_string(),
            name_range: Range::zero(),
            description: None,
            version: semver::Version::new(1, 0, 0),
            game_version: "4.04".to_string(),
            authors: None,
            scripts_root: scripts_root.map(rel_path),
        },
        dependencies: Dependencies(
            deps.into_iter()
                .map(|(n, v)| DependencyEntry { name: n.to_string(), name_range: Range::zero(), value: v, value_range: Range::zero() })
                .collect(),
        ),
    }
}

fn project(path: AbsPath, name: &str, scripts_root: Option<&str>, deps: Vec<(&str, DependencyValue)>) -> Content {
    let script_root = match scripts_root {
        Some(r) => AbsPath::resolve(&rel_path(r), &path),
        None => join(&path, "scripts"),
    };
    Content::Project(ProjectDirectory {
        manifest_path: join(&path, "witcherscript.toml"),
        script_root,
        manifest: manifest(name, scripts_root, deps),
        path,
    })
}

fn raw(path: AbsPath, packed: bool) -> Content {
    let script_root = if packed { join(&path, "content/scripts") } else { join(&path, "scripts") };
    Content::Raw(RawContentDirectory { path, script_root })
}

fn redkit(path: AbsPath, name: &str) -> Content {
    Content::RedkitProject(RedkitProjectDirectory {
        manifest_path: join(&path, &format!("{name}.w3edit")),
        script_root: join(&path, "workspace/scripts"),
        manifest: RedkitManifest {
            name: name.to_string(),
            version: "1.0.0".to_string(),
            game_version: "4.04".to_string(),
            author: "Foo Bar".to_string(),
            description: "Very cool mod!".to_string(),
        },
        path,
    })
}

/// Contents on the simulated disk.
struct Disk {
    contents: Vec<Arc<Content>>,
}

impl Disk {
    fn probe(&self, path: &AbsPath) -> DependencyProbe {
        for c in &self.contents {
            if c.path().components == path.components {
                return DependencyProbe { exists: true, content: Some(Ok(Arc::clone(c))) };
            }
        }
        DependencyProbe { exists: false, content: None }
    }

    fn content(&self, path: &AbsPath) -> Arc<Content> {
        self.probe(path).content.unwrap().ok().unwrap()
    }
}

/// Runs a build, scanning with the given results and probing the disk.
fn build(graph: &mut ContentGraph, disk: &Disk, native: Result<Arc<Content>, ContentScanError>, workspace: Vec<Arc<Content>>, repos: Vec<Arc<Content>>) -> witcherscript_ide::content_graph::difference::ContentGraphDifference {
    let linking = graph.build_begin(native, vec![ScanOutput { contents: workspace, errors: vec![] }]);
    if linking {
        graph.build_add_repositories(vec![ScanOutput { contents: repos, errors: vec![] }]);
    }
    while graph.build_has_next() {
        let probes = graph.build_dependency_paths().iter().map(|p| disk.probe(p)).collect();
        graph.build_link_next(probes);
    }
    graph.build_finish()
}

fn any(mut it: Iter, f: impl Fn(&GraphNode) -> bool) -> bool {
    while let Some(n) = it.next() {
        if f(n) {
            return true;
        }
    }
    false
}

fn setup() -> (Disk, Vec<Arc<Content>>, Vec<Arc<Content>>) {
    let a = test_assets();
    let contents: Vec<Arc<Content>> = vec![
        Arc::new(raw(join(&a, "content0_native"), false)),
        Arc::new(project(join(&a, "dir1/proj1"), "proj1", None, vec![("raw0", DependencyValue::FromRepo(true))])),
        Arc::new(project(join(&a, "dir1/proj2"), "proj2", Some("./content/scripts"), vec![("raw0", DependencyValue::FromRepo(true))])),
        Arc::new(project(
            join(&a, "dir1/nested/proj3"),
            "proj3",
            None,
            vec![
                ("raw2", DependencyValue::FromPath { path: rel_path("../raw2") }),
                ("proj2", DependencyValue::FromPath { path: rel_path("../../proj2") }),
            ],
        )),
        Arc::new(raw(join(&a, "dir1/nested/raw2"), true)),
        Arc::new(redkit(join(&a, "dir1/redkit"), "redkit_proj")),
        Arc::new(raw(join(&a, "dir2/raw0"), false)),
        Arc::new(raw(join(&a, "dir2/content0"), false)),
    ];
    let disk = Disk { contents };
    // scanning dir1 for projects, recursively
    let workspace = vec![
        disk.content(&join(&a, "dir1/proj1")),
        disk.content(&join(&a, "dir1/proj2")),
        disk.content(&join(&a, "dir1/nested/proj3")),
        disk.content(&join(&a, "dir1/redkit")),
    ];
    // scanning dir2 for any content, not recursively
    let repos = vec![disk.content(&join(&a, "dir2/raw0")), disk.content(&join(&a, "dir2/content0"))];
    (disk, workspace, repos)
}

#[test]
fn content_graph_test() {
    let a = test_assets();
    let (disk, workspace, repos) = setup();
    let mut graph = ContentGraph::new();

    let workspace_scanner = ContentScanner::new(join(&a, "dir1"), true).ok().unwrap().only_projects(true).recursive(true);
    let repo_scanner = ContentScanner::new(join(&a, "dir2"), true).ok().unwrap().only_projects(false).recursive(false);
    graph.add_workspace_scanner(workspace_scanner);
    graph.add_repository_scanner(repo_scanner);
    graph.set_native_content_path(&join(&a, "content0_native"));

    let native = Ok(disk.content(&join(&a, "content0_native")));
    build(&mut graph, &disk, native, workspace, repos);

    assert!(graph.errors.is_empty());

    let p = |rel: &str| join(&a, rel);

    assert!(graph.get_node_by_path(&p("dir1/proj1")).is_some());
    assert!(graph.get_node_by_path(&p("dir1/proj2")).is_some());
    assert!(graph.get_node_by_path(&p("dir1/nested/proj3")).is_some());
    assert!(graph.get_node_by_path(&p("dir1/nested/raw2")).is_some());
    assert!(graph.get_node_by_path(&p("dir1/redkit")).is_some());
    assert!(graph.get_node_by_path(&p("dir2/raw0")).is_some());
    assert!(graph.get_node_by_path(&p("dir2/content0")).is_some());
    assert!(graph.get_node_by_path(&p("content0_native")).is_some());

    let is = |n: &GraphNode, rel: &str| n.content.path().components == p(rel).components;

    assert_eq!(graph.nodes().count(), 8);
    assert!(any(graph.nodes(), |n| is(n, "dir1/proj1") && n.in_workspace && !n.in_repository && !n.is_native));
    assert!(any(graph.nodes(), |n| is(n, "dir1/proj2") && n.in_workspace && !n.in_repository && !n.is_native));
    assert!(any(graph.nodes(), |n| is(n, "dir1/nested/proj3") && n.in_workspace && !n.in_repository && !n.is_native));
    assert!(any(graph.nodes(), |n| is(n, "dir1/nested/raw2") && !n.in_workspace && !n.in_repository && !n.is_native));
    assert!(any(graph.nodes(), |n| is(n, "dir1/redkit") && n.in_workspace && !n.in_repository && !n.is_native));
    assert!(any(graph.nodes(), |n| is(n, "dir2/raw0") && !n.in_workspace && n.in_repository && !n.is_native));
    assert!(any(graph.nodes(), |n| is(n, "dir2/content0") && !n.in_workspace && n.in_repository && !n.is_native));
    assert!(any(graph.nodes(), |n| is(n, "content0_native") && !n.in_workspace && !n.in_repository && n.is_native));

    let mut it = graph.direct_dependencies(&p("dir1/proj1"));
    assert_eq!(it.count(), 1);
    assert!(is(it.next().unwrap(), "dir2/raw0"));

    let mut it = graph.direct_dependencies(&p("dir1/proj2"));
    assert_eq!(it.count(), 1);
    assert!(is(it.next().unwrap(), "dir2/raw0"));

    let mut it = graph.direct_dependencies(&p("dir1/nested/proj3"));
    assert_eq!(it.count(), 2);
    // by default dependencies are sorted by their name
    assert!(is(it.next().unwrap(), "dir1/proj2"));
    assert!(is(it.next().unwrap(), "dir1/nested/raw2"));

    let it = graph.direct_dependencies(&p("dir1/nested/raw2"));
    assert_eq!(it.count(), 0);

    let mut it = graph.direct_dependencies(&p("dir1/redkit"));
    assert_eq!(it.count(), 1);
    assert!(is(it.next().unwrap(), "dir2/content0"));

    let it = graph.direct_dependencies(&p("dir2/raw0"));
    assert_eq!(it.count(), 0);

    let mut it = graph.direct_dependencies(&p("dir2/content0"));
    assert_eq!(it.count(), 1);
    assert!(is(it.next().unwrap(), "content0_native"));

    let mut it = graph.direct_dependencies(&p("content0_native"));
    assert_eq!(it.count(), 1);
    assert!(is(it.next().unwrap(), "dir2/content0"));

    let it = graph.direct_dependants(&p("dir1/proj1"));
    assert_eq!(it.count(), 0);

    let mut it = graph.direct_dependants(&p("dir1/proj2"));
    assert_eq!(it.count(), 1);
    assert!(is(it.next().unwrap(), "dir1/nested/proj3"));

    let it = graph.direct_dependants(&p("dir1/nested/proj3"));
    assert_eq!(it.count(), 0);

    let mut it = graph.direct_dependants(&p("dir1/nested/raw2"));
    assert_eq!(it.count(), 1);
    assert!(is(it.next().unwrap(), "dir1/nested/proj3"));

    let it = graph.direct_dependants(&p("dir1/redkit"));
    assert_eq!(it.count(), 0);

    assert_eq!(graph.direct_dependants(&p("dir2/raw0")).count(), 2);
    assert!(any(graph.direct_dependants(&p("dir2/raw0")), |n| is(n, "dir1/proj1")));
    assert!(any(graph.direct_dependants(&p("dir2/raw0")), |n| is(n, "dir1/proj2")));

    assert_eq!(graph.direct_dependants(&p("dir2/content0")).count(), 2);
    assert!(any(graph.direct_dependants(&p("dir2/content0")), |n| is(n, "dir1/redkit")));
    assert!(any(graph.direct_dependants(&p("dir2/content0")), |n| is(n, "content0_native")));

    assert_eq!(graph.direct_dependants(&p("content0_native")).count(), 1);
    assert!(any(graph.direct_dependants(&p("content0_native")), |n| is(n, "dir2/content0")));

    let mut it = graph.walk_dependencies(&p("dir1/proj1"));
    assert_eq!(it.count(), 1);
    assert!(is(it.next().unwrap(), "dir2/raw0"));

    let mut it = graph.walk_dependencies(&p("dir1/proj2"));
    assert_eq!(it.count(), 1);
    assert!(is(it.next().unwrap(), "dir2/raw0"));

    let mut it = graph.walk_dependencies(&p("dir1/nested/proj3"));
    assert_eq!(it.count(), 3);
    assert!(is(it.next().unwrap(), "dir1/proj2"));
    assert!(is(it.next().unwrap(), "dir2/raw0"));
    assert!(is(it.next().unwrap(), "dir1/nested/raw2"));

    let it = graph.walk_dependencies(&p("dir1/nested/raw2"));
    assert_eq!(it.count(), 0);

    let mut it = graph.walk_dependencies(&p("dir1/redkit"));
    assert_eq!(it.count(), 2);
    assert!(is(it.next().unwrap(), "dir2/content0"));
    assert!(is(it.next().unwrap(), "content0_native"));

    let it = graph.walk_dependencies(&p("dir2/raw0"));
    assert_eq!(it.count(), 0);

    let mut it = graph.walk_dependencies(&p("dir2/content0"));
    assert_eq!(it.count(), 1);
    assert!(is(it.next().unwrap(), "content0_native"));

    let mut it = graph.walk_dependencies(&p("content0_native"));
    assert_eq!(it.count(), 1);
    assert!(is(it.next().unwrap(), "dir2/content0"));

    let it = graph.walk_dependants(&p("dir1/proj1"));
    assert_eq!(it.count(), 0);

    let mut it = graph.walk_dependants(&p("dir1/proj2"));
    assert_eq!(it.count(), 1);
    assert!(is(it.next().unwrap(), "dir1/nested/proj3"));

    let it = graph.walk_dependants(&p("dir1/nested/proj3"));
    assert_eq!(it.count(), 0);

    let mut it = graph.walk_dependants(&p("dir1/nested/raw2"));
    assert_eq!(it.count(), 1);
    assert!(is(it.next().unwrap(), "dir1/nested/proj3"));

    let it = graph.walk_dependants(&p("dir1/redkit"));
    assert_eq!(it.count(), 0);

    assert_eq!(graph.walk_dependants(&p("dir2/raw0")).count(), 3);
    assert!(any(graph.walk_dependants(&p("dir2/raw0")), |n| is(n, "dir1/proj1")));
    assert!(any(graph.walk_dependants(&p("dir2/raw0")), |n| is(n, "dir1/proj2")));
    assert!(any(graph.walk_dependants(&p("dir2/raw0")), |n| is(n, "dir1/nested/proj3")));

    assert_eq!(graph.walk_dependants(&p("dir2/content0")).count(), 2);
    assert!(any(graph.walk_dependants(&p("dir2/content0")), |n| is(n, "dir1/redkit")));
    assert!(any(graph.walk_dependants(&p("dir2/content0")), |n| is(n, "content0_native")));

    assert_eq!(graph.walk_dependants(&p("content0_native")).count(), 2);
    assert!(any(graph.walk_dependants(&p("content0_native")), |n| is(n, "dir2/content0")));
    assert!(any(graph.walk_dependants(&p("content0_native")), |n| is(n, "dir1/redkit")));
}

#[test]
fn graph_priorities() {
    let a = test_assets();
    let (disk, workspace, repos) = setup();
    let mut graph = ContentGraph::new();
    graph.set_native_content_path(&join(&a, "content0_native"));
    build(&mut graph, &disk, Ok(disk.content(&join(&a, "content0_native"))), workspace, repos);
    let p = |rel: &str| join(&a, rel);
    // dependencies other than content0 count up from zero in name order
    assert_eq!(graph.dependency_priority(&p("dir1/nested/proj3"), &p("dir1/proj2")), Some(0));
    assert_eq!(graph.dependency_priority(&p("dir1/nested/proj3"), &p("dir1/nested/raw2")), Some(1));
    // content0 and native content
    assert_eq!(graph.dependency_priority(&p("dir1/redkit"), &p("dir2/content0")), Some(998));
    assert_eq!(graph.dependency_priority(&p("dir2/content0"), &p("content0_native")), Some(999));
    assert_eq!(graph.dependency_priority(&p("content0_native"), &p("dir2/content0")), Some(998));
    assert_eq!(graph.dependency_priority(&p("dir1/proj1"), &p("dir1/proj2")), None);
}

#[test]
fn rebuild_without_changes_is_empty() {
    let a = test_assets();
    let (disk, workspace, repos) = setup();
    let mut graph = ContentGraph::new();
    graph.set_native_content_path(&join(&a, "content0_native"));
    let first = build(&mut graph, &disk, Ok(disk.content(&join(&a, "content0_native"))), workspace.clone(), repos.clone());
    assert_eq!(first.added_nodes.len(), 8);
    assert!(first.removed_nodes.is_empty());
    assert_eq!(first.added_edges.len(), 7);
    assert!(!first.is_empty());
    let second = build(&mut graph, &disk, Ok(disk.content(&join(&a, "content0_native"))), workspace, repos);
    assert!(second.is_empty());
}

#[test]
fn rebuild_reports_removed_and_modified() {
    let a = test_assets();
    let (disk, workspace, repos) = setup();
    let mut graph = ContentGraph::new();
    graph.set_native_content_path(&join(&a, "content0_native"));
    build(&mut graph, &disk, Ok(disk.content(&join(&a, "content0_native"))), workspace.clone(), repos.clone());
    // proj1 leaves the workspace; proj2 moves its scripts
    let mut changed: Vec<Arc<Content>> = workspace.iter().skip(1).cloned().collect();
    changed[0] = Arc::new(project(join(&a, "dir1/proj2"), "proj2", None, vec![("raw0", DependencyValue::FromRepo(true))]));
    let diff = build(&mut graph, &disk, Ok(disk.content(&join(&a, "content0_native"))), changed, repos);
    assert_eq!(diff.removed_nodes.len(), 1);
    assert_eq!(diff.removed_nodes[0].content.path().components, join(&a, "dir1/proj1").components);
    assert!(diff.added_nodes.is_empty());
    assert_eq!(diff.modified_nodes.len(), 1);
    assert_eq!(diff.modified_nodes[0].node.content.path().components, join(&a, "dir1/proj2").components);
    assert!(diff.modified_nodes[0].source_tree_root_changed);
    assert_eq!(diff.removed_edges.len(), 1);
    assert!(diff.added_edges.is_empty());
}

#[test]
fn no_workspace_contents_links_nothing() {
    let a = test_assets();
    let (disk, _, repos) = setup();
    let mut graph = ContentGraph::new();
    graph.set_native_content_path(&join(&a, "content0_native"));
    let linking = graph.build_begin(Ok(disk.content(&join(&a, "content0_native"))), vec![]);
    assert!(!linking);
    assert!(!graph.build_has_next());
    let _ = repos;
    let diff = graph.build_finish();
    assert_eq!(graph.nodes().count(), 1);
    assert_eq!(diff.added_nodes.len(), 1);
}

#[test]
fn native_content_missing() {
    let mut graph = ContentGraph::new();
    let (disk, workspace, repos) = setup();
    // no native content path set
    build(&mut graph, &disk, Err(ContentScanError::NotContent), workspace, repos);
    assert!(matches!(graph.errors[0], ContentGraphError::NativeContentNotFound(None)));
    let mut graph = ContentGraph::new();
    graph.set_native_content_path(&join(&test_assets(), "nowhere"));
    let linking = graph.build_begin(Err(ContentScanError::NotContent), vec![]);
    assert!(!linking);
    assert!(matches!(graph.errors[0], ContentGraphError::NativeContentNotFound(Some(ContentScanError::NotContent))));
}

#[test]
fn dependency_errors() {
    let a = test_assets();
    let me = join(&a, "dir1/me");
    let twin_a = join(&a, "dir2/twin");
    let twin_b = join(&a, "dir3/twin");
    let other = join(&a, "dir1/other");
    let disk = Disk {
        contents: vec![
            Arc::new(project(
                me.copy(),
                "me",
                None,
                vec![
                    ("missing", DependencyValue::FromRepo(true)),
                    ("me", DependencyValue::FromRepo(true)),
                    ("twin", DependencyValue::FromRepo(true)),
                    ("gone", DependencyValue::FromPath { path: rel_path("../gone") }),
                    ("wrong_name", DependencyValue::FromPath { path: rel_path("../other") }),
                    ("inactive", DependencyValue::FromRepo(false)),
                ],
            )),
            Arc::new(raw(twin_a.copy(), false)),
            Arc::new(raw(twin_b.copy(), false)),
            Arc::new(raw(other.copy(), false)),
            Arc::new(raw(join(&a, "dir2/me"), false)),
        ],
    };
    let mut graph = ContentGraph::new();
    let workspace = vec![disk.content(&me)];
    let repos = vec![disk.content(&twin_a), disk.content(&twin_b), disk.content(&join(&a, "dir2/me"))];
    build(&mut graph, &disk, Err(ContentScanError::NotContent), workspace, repos);
    // the native content error first, then the dependencies in name order:
    // gone, inactive (no error), me, missing, twin, wrong_name
    assert_eq!(graph.errors.len(), 5);
    assert!(matches!(graph.errors[0], ContentGraphError::NativeContentNotFound(None)));
    assert!(matches!(graph.errors[1], ContentGraphError::DependencyPathNotFound { .. }));
    // "me" comes from the repository (another content than the project
    // itself); nothing provides "missing"
    assert!(matches!(graph.errors[2], ContentGraphError::DependencyNameNotFound { .. }));
    match &graph.errors[3] {
        ContentGraphError::MultipleMatchingDependencies { content_name, matching_paths, .. } => {
            assert_eq!(content_name, "twin");
            assert_eq!(matching_paths.len(), 2);
        },
        _ => panic!("expected multiple matching dependencies"),
    }
    assert!(matches!(graph.errors[4], ContentGraphError::DependencyNameNotFoundAtPath { .. }));
    // only the repository's "me" got linked
    assert_eq!(graph.direct_dependencies(&me).count(), 1);
    assert!(graph.get_node_by_path(&join(&a, "dir1/other")).is_none());
}

#[test]
fn self_dependency() {
    let a = test_assets();
    let me = join(&a, "dir1/me");
    let disk = Disk { contents: vec![Arc::new(project(me.copy(), "me", None, vec![("me", DependencyValue::FromPath { path: rel_path(".") })]))] };
    let mut graph = ContentGraph::new();
    build(&mut graph, &disk, Err(ContentScanError::NotContent), vec![disk.content(&me)], vec![]);
    assert_eq!(graph.errors.len(), 2);
    assert!(matches!(graph.errors[1], ContentGraphError::SelfDependency { .. }));
    // a link to itself is no neighbour
    assert_eq!(graph.direct_dependencies(&me).count(), 0);
}

#[test]
fn workspace_repository_overlap() {
    let a = test_assets();
    let (disk, workspace, mut repos) = setup();
    // the repository holds a workspace project too
    repos.push(disk.content(&join(&a, "dir1/proj1")));
    let mut graph = ContentGraph::new();
    build(&mut graph, &disk, Err(ContentScanError::NotContent), workspace, repos);
    let n = graph.get_node_by_path(&join(&a, "dir1/proj1")).unwrap();
    assert!(n.in_workspace && n.in_repository);
    assert_eq!(graph.nodes().count(), 7);
}

#[test]
fn strip_content_path_prefix_finds_owner() {
    let a = test_assets();
    let (disk, workspace, repos) = setup();
    let mut graph = ContentGraph::new();
    build(&mut graph, &disk, Err(ContentScanError::NotContent), workspace, repos);
    let script = join(&a, "dir1/proj1/scripts/game/player.ws");
    let owner = graph.strip_content_path_prefix(&script).unwrap();
    assert_eq!(owner.components, join(&a, "dir1/proj1").components);
    assert!(graph.strip_content_path_prefix(&join(&a, "elsewhere/x.ws")).is_none());
}

#[test]
fn stale_manifest_of_removed_node() {
    let node = |content: Content, in_workspace: bool| GraphNode { content: Arc::new(content), in_workspace, in_repository: !in_workspace, is_native: false };
    let p = node(project(abs(&["w", "p"]), "p", None, vec![]), true);
    assert!(stale_manifest_path(&p, true).is_none());
    assert_eq!(stale_manifest_path(&p, false).unwrap().components, vec!["w", "p", "witcherscript.toml"]);
    let repo = node(redkit(abs(&["r", "k"]), "k"), false);
    assert_eq!(stale_manifest_path(&repo, true).unwrap().components, vec!["r", "k", "k.w3edit"]);
    let r = node(raw(abs(&["r", "raw"]), false), false);
    assert!(stale_manifest_path(&r, false).is_none());
}
