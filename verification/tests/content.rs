use witcherscript_ide::content::{try_make_content, Content, ContentProbe, ContentScanError, DirectoryProbe};
use witcherscript_ide::content_scanner::{ContentScanner, ScanDecision};
use witcherscript_ide::file_error::IoError;
use witcherscript_ide::manifest::{Dependencies, Manifest, ManifestError};
use witcherscript_ide::paths::{AbsPath, PathBuf, PathComponent};
use witcherscript_ide::redkit::RedkitManifest;
use witcherscript_ide::redkit::manifest::{Error, JsonError};
use witcherscript_ide::text::Range;

fn abs(parts: &[&str]) -> AbsPath {
    AbsPath { components: parts.iter().map(|s| s.to_string()).collect() }
}

fn test_assets() -> AbsPath {
    abs(&["home", "test_assets", "project"])
}

fn join(base: &AbsPath, rel: &str) -> AbsPath {
    let mut cs = base.components.clone();
    for p in rel.split('/') {
        cs.push(p.to_string());
    }
    AbsPath { components: cs }
}

fn same(a: &AbsPath, b: &AbsPath) -> bool {
    a.components == b.components
}

fn rel_path(s: &str) -> PathBuf {
    let components = s
        .split('/')
        .map(|p| match p {
            "." => PathComponent::CurDir,
            ".." => PathComponent::ParentDir,
            other => PathComponent::Normal(other.to_string()),
        })
        .collect();
    PathBuf { is_absolute: false, components }
}

fn manifest(name: &str, scripts_root: Option<&str>) -> Manifest {
    Manifest {
        content: witcherscript_ide::manifest::Content {
            name: name.to_string(),
            name_range: Range::zero(),
            description: None,
            version: semver::Version::new(1, 0, 0),
            game_version: "4.04".to_string(),
            authors: None,
            scripts_root: scripts_root.map(rel_path),
        },
        dependencies: Dependencies(vec![]),
    }
}

fn empty_dir() -> DirectoryProbe {
    DirectoryProbe { manifest: None, redkit_manifest: None, has_scripts: false }
}

fn dir_probe(path: AbsPath, dir: DirectoryProbe, packed: Option<DirectoryProbe>) -> ContentProbe {
    ContentProbe { path, exists: true, is_dir: true, dir, packed }
}

fn redkit_manifest() -> RedkitManifest {
    RedkitManifest {
        name: "redkit_proj".to_string(),
        version: "1.0.0".to_string(),
        game_version: "4.04".to_string(),
        author: "Foo Bar".to_string(),
        description: "Very cool mod!".to_string(),
    }
}

#[test]
fn content_test() {
    let path = join(&test_assets(), "dir1/nonexistent");
    let content = try_make_content(ContentProbe { path, exists: false, is_dir: false, dir: empty_dir(), packed: None });
    assert!(matches!(content, Err(ContentScanError::Io(_))));

    let path = test_assets();
    let content = try_make_content(dir_probe(path, empty_dir(), None));
    assert!(matches!(content, Err(ContentScanError::NotContent)));

    let path = join(&test_assets(), "dir1/proj1");
    let probe = DirectoryProbe { manifest: Some(Ok(manifest("proj1", None))), redkit_manifest: None, has_scripts: true };
    let content = try_make_content(dir_probe(path.copy(), probe, None)).ok().unwrap();
    match &content {
        Content::Project(proj) => {
            assert!(same(&proj.path, &path));
            assert!(same(proj.manifest_path(), &join(&path, "witcherscript.toml")));
            assert_eq!(content.content_name(), "proj1");
            assert!(same(content.source_tree_root(), &join(&path, "scripts")));
        },
        _ => panic!("expected a project"),
    }

    let path = join(&test_assets(), "dir1/proj2");
    let probe = DirectoryProbe { manifest: Some(Ok(manifest("proj2", Some("./content/scripts")))), redkit_manifest: None, has_scripts: false };
    let content = try_make_content(dir_probe(path.copy(), probe, None)).ok().unwrap();
    match &content {
        Content::Project(proj) => {
            assert!(same(&proj.path, &path));
            assert!(same(proj.manifest_path(), &join(&path, "witcherscript.toml")));
            assert_eq!(content.content_name(), "proj2");
            assert!(same(content.source_tree_root(), &join(&path, "content/scripts")));
        },
        _ => panic!("expected a project"),
    }

    let path = join(&test_assets(), "dir1/raw1");
    let probe = DirectoryProbe { manifest: None, redkit_manifest: None, has_scripts: true };
    let content = try_make_content(dir_probe(path.copy(), probe, None)).ok().unwrap();
    match &content {
        Content::Raw(raw) => {
            assert!(same(&raw.path, &path));
            assert_eq!(content.content_name(), "raw1");
            assert!(same(content.source_tree_root(), &join(&path, "scripts")));
        },
        _ => panic!("expected raw content"),
    }

    let path = join(&test_assets(), "dir1/nested/raw2");
    let packed = DirectoryProbe { manifest: None, redkit_manifest: None, has_scripts: true };
    let content = try_make_content(dir_probe(path.copy(), empty_dir(), Some(packed))).ok().unwrap();
    match &content {
        Content::Raw(raw) => {
            assert!(same(&raw.path, &path));
            assert_eq!(content.content_name(), "raw2");
            assert!(same(content.source_tree_root(), &join(&path, "content/scripts")));
        },
        _ => panic!("expected raw content"),
    }

    let path = join(&test_assets(), "dir1/redkit");
    let probe = DirectoryProbe {
        manifest: None,
        redkit_manifest: Some((join(&path, "redkit_proj.w3edit"), Ok(redkit_manifest()))),
        has_scripts: false,
    };
    let content = try_make_content(dir_probe(path.copy(), probe, None)).ok().unwrap();
    match &content {
        Content::RedkitProject(proj) => {
            assert!(same(&proj.path, &path));
            assert!(same(proj.manifest_path(), &join(&path, "redkit_proj.w3edit")));
            assert_eq!(content.content_name(), "redkit_proj");
            assert!(same(content.source_tree_root(), &join(&path, "workspace/scripts")));
        },
        _ => panic!("expected a REDkit project"),
    }
}

#[test]
fn content_precedence_and_errors() {
    let path = join(&test_assets(), "dir1/both");
    // a project manifest wins over a REDkit file and a scripts folder
    let probe = DirectoryProbe {
        manifest: Some(Ok(manifest("both", None))),
        redkit_manifest: Some((join(&path, "x.w3edit"), Ok(redkit_manifest()))),
        has_scripts: true,
    };
    assert!(try_make_content(dir_probe(path.copy(), probe, None)).ok().unwrap().is_project());
    // a REDkit file wins over a scripts folder
    let probe = DirectoryProbe { manifest: None, redkit_manifest: Some((join(&path, "x.w3edit"), Ok(redkit_manifest()))), has_scripts: true };
    assert!(try_make_content(dir_probe(path.copy(), probe, None)).ok().unwrap().is_redkit_project());
    // an unreadable manifest is reported at its path
    let probe = DirectoryProbe { manifest: Some(Err(ManifestError::Io { message: "denied".to_string() })), redkit_manifest: None, has_scripts: true };
    match try_make_content(dir_probe(path.copy(), probe, None)) {
        Err(ContentScanError::ManifestRead(e)) => assert!(same(&e.path, &join(&path, "witcherscript.toml"))),
        _ => panic!("expected a manifest error"),
    }
    // a file is no content
    let content = try_make_content(ContentProbe { path: path.copy(), exists: true, is_dir: false, dir: empty_dir(), packed: None });
    assert!(matches!(content, Err(ContentScanError::NotContent)));
    // a packed project
    let packed = DirectoryProbe { manifest: Some(Ok(manifest("packed", None))), redkit_manifest: None, has_scripts: false };
    match try_make_content(dir_probe(path.copy(), empty_dir(), Some(packed))).ok().unwrap() {
        Content::Project(p) => {
            assert!(same(&p.path, &join(&path, "content")));
            assert!(same(&p.script_root, &join(&path, "content/scripts")));
        },
        _ => panic!("expected a project"),
    }
    // a raw content at the root of the file system has an empty name
    let root = try_make_content(dir_probe(abs(&[]), DirectoryProbe { manifest: None, redkit_manifest: None, has_scripts: true }, None)).ok().unwrap();
    assert_eq!(root.content_name(), "");
}

fn contents_of(dir: &str) -> Vec<(String, Content)> {
    // the simulated disk: dir1 holds proj1, proj2, raw1, redkit and nested/{proj3, raw2}
    let a = join(&test_assets(), dir);
    let project = |rel: &str, name: &str| {
        let p = join(&a, rel);
        let probe = DirectoryProbe { manifest: Some(Ok(manifest(name, None))), redkit_manifest: None, has_scripts: true };
        (rel.to_string(), try_make_content(dir_probe(p, probe, None)).ok().unwrap())
    };
    let raw = |rel: &str| {
        let p = join(&a, rel);
        (rel.to_string(), try_make_content(dir_probe(p, DirectoryProbe { manifest: None, redkit_manifest: None, has_scripts: true }, None)).ok().unwrap())
    };
    let redkit = |rel: &str| {
        let p = join(&a, rel);
        let probe = DirectoryProbe { manifest: None, redkit_manifest: Some((join(&p, "redkit_proj.w3edit"), Ok(redkit_manifest()))), has_scripts: false };
        (rel.to_string(), try_make_content(dir_probe(p, probe, None)).ok().unwrap())
    };
    vec![project("proj1", "proj1"), project("proj2", "proj2"), raw("raw1"), redkit("redkit"), project("nested/proj3", "proj3"), raw("nested/raw2")]
}

/// Walks the simulated directory tree as the scanner asks.
fn scan(scanner: &ContentScanner, dir: &str) -> Vec<Content> {
    let all = contents_of(dir);
    let mut found = Vec::new();
    // top level: proj1, proj2, raw1, redkit are content; nested is not
    let mut outcomes: Vec<Result<Content, ContentScanError>> = Vec::new();
    let mut nested: Vec<Result<Content, ContentScanError>> = Vec::new();
    for (rel, c) in all {
        if rel.starts_with("nested/") {
            nested.push(Ok(c));
        } else {
            outcomes.push(Ok(c));
        }
    }
    outcomes.push(Err(ContentScanError::NotContent));
    for o in outcomes {
        match scanner.decide(o) {
            ScanDecision::Found(c) => found.push(c),
            ScanDecision::Descend => {
                for n in nested.drain(..) {
                    if let ScanDecision::Found(c) = scanner.decide(n) {
                        found.push(c);
                    }
                }
            },
            ScanDecision::Skip => {},
            ScanDecision::Report(_) => panic!("no errors here"),
        }
    }
    scanner.retain_requested(found)
}

#[test]
fn test_repos() {
    let scan_dir = join(&test_assets(), "dir1");
    let scanner = ContentScanner::new(scan_dir.copy(), true).ok().unwrap().only_projects(false).recursive(false);
    let contents = scan(&scanner, "dir1");
    assert_eq!(contents.len(), 4);
    assert!(contents.iter().any(|c| same(c.path(), &join(&scan_dir, "proj1"))));
    assert!(contents.iter().any(|c| same(c.path(), &join(&scan_dir, "proj2"))));
    assert!(contents.iter().any(|c| same(c.path(), &join(&scan_dir, "raw1"))));
    assert!(contents.iter().any(|c| same(c.path(), &join(&scan_dir, "redkit"))));
}

#[test]
fn test_workspaces() {
    let scan_dir = join(&test_assets(), "dir1");
    let scanner = ContentScanner::new(scan_dir.copy(), true).ok().unwrap().only_projects(true).recursive(true);
    let contents = scan(&scanner, "dir1");
    assert_eq!(contents.len(), 4);
    assert!(contents.iter().any(|c| same(c.path(), &join(&scan_dir, "proj1"))));
    assert!(contents.iter().any(|c| same(c.path(), &join(&scan_dir, "proj2"))));
    assert!(contents.iter().any(|c| same(c.path(), &join(&scan_dir, "nested/proj3"))));
    assert!(contents.iter().any(|c| same(c.path(), &join(&scan_dir, "redkit"))));
}

#[test]
fn scanner_needs_a_directory() {
    let r = ContentScanner::new(join(&test_assets(), "missing"), false);
    match r {
        Err(ContentScanError::Io(e)) => assert!(matches!(e.error, IoError::NotFound)),
        _ => panic!("expected an error"),
    }
    let s = ContentScanner::new(test_assets(), true).ok().unwrap();
    assert!(matches!(s.decide(Err(ContentScanError::NotContent)), ScanDecision::Skip));
    let s = s.recursive(true);
    assert!(matches!(s.decide(Err(ContentScanError::NotContent)), ScanDecision::Descend));
    let e = ContentScanError::ManifestRead(witcherscript_ide::file_error::FileError::new(test_assets(), ManifestError::Io { message: "x".to_string() }));
    assert!(matches!(s.decide(Err(e)), ScanDecision::Report(_)));
}

#[test]
fn manifest_test() {
    // what the JSON reader makes of dir1/redkit/redkit_proj.w3edit
    let text = r#"{ "name": "redkit_proj", "version": "1.0.0", "gameVersion": "4.04", "description": "Very cool mod!", "author": "Foo Bar" }"#;
    let v: serde_json::Value = serde_json::from_str(text).unwrap();
    let field = |k: &str| v[k].as_str().unwrap().to_string();
    let parsed = Ok(RedkitManifest {
        name: field("name"),
        version: field("version"),
        game_version: field("gameVersion"),
        author: field("author"),
        description: field("description"),
    });
    let manifest = RedkitManifest::from_parsed(parsed).ok().unwrap();

    assert_eq!(manifest.name, "redkit_proj");
    assert_eq!(manifest.version, "1.0.0");
    assert_eq!(manifest.game_version, "4.04");
    assert_eq!(manifest.description, "Very cool mod!");
    assert_eq!(manifest.author, "Foo Bar");
}

#[test]
fn redkit_json_error_position() {
    let r = RedkitManifest::from_parsed(Err(JsonError { line: 3, column: 14, message: "expected value".to_string() }));
    match r {
        Err(Error::Json { position, msg }) => {
            assert_eq!(position.line, 2);
            assert_eq!(position.character, 13);
            assert_eq!(msg, "expected value");
        },
        _ => panic!("expected a JSON error"),
    }
    let r = RedkitManifest::from_parsed(Err(JsonError { line: 0, column: 0, message: String::new() }));
    match r {
        Err(Error::Json { position, .. }) => {
            assert_eq!(position.line, 0);
            assert_eq!(position.character, 0);
        },
        _ => panic!("expected a JSON error"),
    }
}
