use std::sync::Arc;
use witcherscript_ide::content::{Content, ContentScanError, RawContentDirectory};
use witcherscript_ide::content_graph::building::{DependencyProbe, ScanOutput};
use witcherscript_ide::content_graph::ContentGraph;
use witcherscript_ide::paths::AbsPath;
use witcherscript_ide::providers::document_ops::{
    contents_with_changed_sources, deletion_effects, has_extension, save_effects, update_workspace_roots,
    FileOperationPath,
};

fn abs(parts: &[&str]) -> AbsPath {
    AbsPath { components: parts.iter().map(|s| s.to_string()).collect() }
}

fn raw(path: AbsPath) -> Arc<Content> {
    let mut script_root = path.copy();
    script_root.components.push("scripts".to_string());
    Arc::new(Content::Raw(RawContentDirectory { path, script_root }))
}

fn graph() -> ContentGraph {
    let mut g = ContentGraph::new();
    let ws = vec![raw(abs(&["w", "a"])), raw(abs(&["w", "b"]))];
    g.build_begin(Err(ContentScanError::NotContent), vec![ScanOutput { contents: ws, errors: vec![] }]);
    g.build_add_repositories(vec![]);
    while g.build_has_next() {
        assert!(g.build_dependency_paths().is_empty());
        let probes: Vec<DependencyProbe> = Vec::new();
        g.build_link_next(probes);
    }
    g.build_finish();
    g
}

fn op(parts: &[&str], is_dir: bool) -> FileOperationPath {
    FileOperationPath { path: abs(parts), is_dir }
}

fn names(v: &[AbsPath]) -> Vec<String> {
    v.iter().map(|p| p.components.join("/")).collect()
}

#[test]
fn extensions_follow_the_last_dot() {
    assert!(has_extension(&abs(&["x", "a.ws"]), "ws"));
    assert!(has_extension(&abs(&["x", "a.b.ws"]), "ws"));
    assert!(!has_extension(&abs(&["x", "a.ws.bak"]), "ws"));
    assert!(!has_extension(&abs(&["x", ".ws"]), "ws"));
    assert!(!has_extension(&abs(&["x", "ws"]), "ws"));
    assert!(has_extension(&abs(&["x", "a."]), ""));
    assert!(!has_extension(&abs(&["x", ".."]), ""));
    assert!(!has_extension(&abs(&[]), "ws"));
    assert!(has_extension(&abs(&["x", "mod.w3edit"]), "w3edit"));
}

#[test]
fn created_scripts_and_directories_rescan_their_content_once() {
    let g = graph();
    let ops = vec![
        op(&["w", "a", "scripts", "x.ws"], false),
        op(&["w", "a", "scripts", "y.ws"], false),
        op(&["w", "b", "scripts", "sub"], true),
        op(&["w", "b", "notes.txt"], false),
        op(&["elsewhere", "z.ws"], false),
    ];
    let r = contents_with_changed_sources(&g, &ops);
    assert_eq!(names(&r), vec!["w/a", "w/b"]);
}

#[test]
fn deleted_manifest_drops_the_content_instead_of_rescanning_it() {
    let g = graph();
    let ops = vec![
        op(&["w", "a", "scripts", "x.ws"], false),
        op(&["w", "a", "witcherscript.toml"], false),
        op(&["w", "b", "scripts", "y.ws"], false),
    ];
    let r = deletion_effects(&g, &ops);
    assert_eq!(names(&r.contents_to_update), vec!["w/b"]);
    assert_eq!(names(&r.contents_to_be_deleted), vec!["w/a"]);
    assert!(r.rebuild_graph);

    let only_scripts = deletion_effects(&g, &vec![op(&["w", "b", "scripts", "y.ws"], false)]);
    assert_eq!(names(&only_scripts.contents_to_update), vec!["w/b"]);
    assert!(only_scripts.contents_to_be_deleted.is_empty());
    assert!(!only_scripts.rebuild_graph);

    let redkit = deletion_effects(&g, &vec![op(&["w", "b", "b.w3edit"], false)]);
    assert_eq!(names(&redkit.contents_to_be_deleted), vec!["w/b"]);
}

#[test]
fn saving_a_script_rescans_its_content_and_a_manifest_rebuilds() {
    let g = graph();
    let roots = vec![abs(&["w"])];
    let s = save_effects(&g, &roots, &abs(&["w", "a", "scripts", "x.ws"]));
    assert_eq!(names(&[s.rescan.unwrap()]), vec!["w/a"]);
    assert!(!s.rebuild_graph);

    let outside = save_effects(&g, &roots, &abs(&["q", "x.ws"]));
    assert!(outside.rescan.is_none());

    let m = save_effects(&g, &roots, &abs(&["w", "a", "witcherscript.toml"]));
    assert!(m.rescan.is_none());
    assert!(m.rebuild_graph);

    let foreign = save_effects(&g, &roots, &abs(&["q", "witcherscript.toml"]));
    assert!(!foreign.rebuild_graph);

    let other = save_effects(&g, &roots, &abs(&["w", "a", "readme.md"]));
    assert!(other.rescan.is_none());
    assert!(!other.rebuild_graph);
}

#[test]
fn workspace_roots_drop_removed_and_append_added() {
    let mut roots = vec![abs(&["a"]), abs(&["b"]), abs(&["c"])];
    update_workspace_roots(&mut roots, vec![abs(&["d"])], &vec![abs(&["b"])]);
    assert_eq!(names(&roots), vec!["a", "c", "d"]);
}
