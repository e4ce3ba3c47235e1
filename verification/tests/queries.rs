use std::sync::Arc;
use witcherscript_ide::content::{Content, ContentScanError, ProjectDirectory, RawContentDirectory};
use witcherscript_ide::content_graph::building::{DependencyProbe, ScanOutput};
use witcherscript_ide::content_graph::ContentGraph;
use witcherscript_ide::manifest::{Dependencies, DependencyEntry, DependencyValue, Manifest};
use witcherscript_ide::paths::AbsPath;
use witcherscript_ide::providers::custom::projects::{project_list, vanilla_dependency_content, VanillaDependencyError};
use witcherscript_ide::providers::workspace_symbols::{query_workspace_symbols, rank_symbols, WorkspaceSymbolData};
use witcherscript_ide::text::Range;

fn abs(parts: &[&str]) -> AbsPath {
    AbsPath { components: parts.iter().map(|s| s.to_string()).collect() }
}

fn project(path: AbsPath, name: &str, deps: Vec<&str>) -> Content {
    let mut script_root = path.copy();
    script_root.components.push("scripts".to_string());
    let mut manifest_path = path.copy();
    manifest_path.components.push("witcherscript.toml".to_string());
    Content::Project(ProjectDirectory {
        manifest_path,
        script_root,
        manifest: Manifest {
            content: witcherscript_ide::manifest::Content {
                name: name.to_string(),
                name_range: Range::zero(),
                description: None,
                version: semver::Version::new(1, 0, 0),
                game_version: "4.04".to_string(),
                authors: None,
                scripts_root: None,
            },
            dependencies: Dependencies(
                deps.into_iter()
                    .map(|n| DependencyEntry { name: n.to_string(), name_range: Range::zero(), value: DependencyValue::FromRepo(true), value_range: Range::zero() })
                    .collect(),
            ),
        },
        path,
    })
}

fn raw(path: AbsPath) -> Content {
    let mut script_root = path.copy();
    script_root.components.push("scripts".to_string());
    Content::Raw(RawContentDirectory { path, script_root })
}

fn graph() -> ContentGraph {
    let mut g = ContentGraph::new();
    let ws = vec![Arc::new(project(abs(&["w", "modA"]), "modA", vec!["shared"])), Arc::new(project(abs(&["w", "lonely"]), "lonely", vec![]))];
    let repos = vec![Arc::new(project(abs(&["r", "shared"]), "shared", vec!["content0"])), Arc::new(raw(abs(&["r", "content0"])))];
    g.build_begin(Err(ContentScanError::NotContent), vec![ScanOutput { contents: ws, errors: vec![] }]);
    g.build_add_repositories(vec![ScanOutput { contents: repos, errors: vec![] }]);
    while g.build_has_next() {
        let probes: Vec<DependencyProbe> = g.build_dependency_paths().iter().map(|_| DependencyProbe { exists: false, content: None }).collect();
        g.build_link_next(probes);
    }
    g.build_finish();
    g
}

#[test]
fn project_list_filters_workspace() {
    let g = graph();
    let only = project_list(&g, None);
    assert_eq!(only.len(), 2);
    assert_eq!(only[0].content_name, "modA");
    assert_eq!(only[1].content_name, "lonely");
    assert!(only.iter().all(|i| i.is_in_workspace));
    let all = project_list(&g, Some(false));
    assert_eq!(all.len(), 4);
    assert!(all.iter().any(|i| i.content_name == "content0" && i.is_in_repository));
}

#[test]
fn vanilla_dependency() {
    let g = graph();
    let info = vanilla_dependency_content(&g, &abs(&["w", "modA"])).ok().unwrap();
    assert_eq!(info.content_name, "content0");
    assert_eq!(info.content_path.components, abs(&["r", "content0"]).components);
    assert_eq!(info.scripts_root_path.components, abs(&["r", "content0", "scripts"]).components);
    match vanilla_dependency_content(&g, &abs(&["w", "lonely"])) {
        Err(e) => {
            assert_eq!(e, VanillaDependencyError::NoVanillaDependency);
            assert_eq!(e.code(), -1031);
        },
        Ok(_) => panic!("no vanilla dependency expected"),
    }
    match vanilla_dependency_content(&g, &abs(&["w", "nowhere"])) {
        Err(e) => assert_eq!(e.code(), -1030),
        Ok(_) => panic!("the project is not in the graph"),
    }
}

fn sym(id: &str, name: &str) -> WorkspaceSymbolData {
    WorkspaceSymbolData { id_string: id.to_string(), name: name.to_string() }
}

#[test]
fn workspace_symbols_empty_query_keeps_all() {
    let data = vec![sym("CPlayer", "CPlayer"), sym("CR4Player", "CR4Player"), sym("Log", "Log")];
    assert_eq!(query_workspace_symbols(&data, ""), vec![0, 1, 2]);
}

#[test]
fn workspace_symbols_fuzzy_filter() {
    let data = vec![sym("CPlayer", "CPlayer"), sym("Log", "Log"), sym("CR4Player", "CR4Player"), sym("theGame", "theGame")];
    let r = query_workspace_symbols(&data, "player");
    // only the symbols whose id matches the query are answered
    assert!(r.contains(&0) && r.contains(&2));
    assert!(!r.contains(&1) && !r.contains(&3));
    assert_eq!(r.len(), 2);
    // best first: the exact word scores at least as high
    let r = query_workspace_symbols(&data, "Log");
    assert_eq!(r, vec![1]);
}

#[test]
fn workspace_symbols_rank_order() {
    let data = vec![sym("a", "alpha"), sym("b", "beta"), sym("c", "gamma"), sym("d", "delta")];
    let ranks = vec![Some(10), None, Some(30), Some(10)];
    // highest rank first; equal ranks by name, descending
    assert_eq!(rank_symbols(&data, &ranks), vec![2, 3, 0]);
}
