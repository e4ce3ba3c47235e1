use witcherscript_ide::config::{repository_setup, Config, RepositoryProbe, RepositorySetup};
use witcherscript_ide::content::ContentScanError;
use witcherscript_ide::file_error::IoError;
use witcherscript_ide::paths::{AbsPath, PathBuf, PathComponent};
use witcherscript_ide::providers::custom::projects::{create_project_next, CreateProjectAction, CreateProjectError, CreateProjectProgress};
use witcherscript_ide::source_tree::is_script_file;

fn abs(parts: &[&str]) -> AbsPath {
    AbsPath { components: parts.iter().map(|s| s.to_string()).collect() }
}

fn path(absolute: bool, parts: &[&str]) -> PathBuf {
    PathBuf { is_absolute: absolute, components: parts.iter().map(|s| PathComponent::Normal(s.to_string())).collect() }
}

fn progress(roots: [bool; 3]) -> CreateProjectProgress {
    CreateProjectProgress {
        dir_exists: true,
        manifest_exists: false,
        roots_exist: roots.to_vec(),
        root_created: None,
        manifest_created: None,
        manifest_written: None,
    }
}

#[test]
fn create_project_steps_in_order() {
    let mut p = progress([false, false, false]);
    assert!(matches!(create_project_next(&p, "my_mod"), CreateProjectAction::CreateScriptsRoot { root: 0 }));
    p.root_created = Some(true);
    assert!(matches!(create_project_next(&p, "my_mod"), CreateProjectAction::CreateManifest));
    p.manifest_created = Some(true);
    match create_project_next(&p, "my_mod") {
        CreateProjectAction::WriteManifest { text } => {
            assert!(text.contains("name = \"my_mod\""));
            assert!(text.contains("scripts_root = \"scripts\""));
        },
        _ => panic!("expected the manifest to be written"),
    }
    p.manifest_written = Some(true);
    assert!(matches!(create_project_next(&p, "my_mod"), CreateProjectAction::Finished));
}

#[test]
fn create_project_uses_existing_root_and_reports_errors() {
    let mut p = progress([false, true, false]);
    assert!(matches!(create_project_next(&p, "m"), CreateProjectAction::CreateManifest));
    p.manifest_created = Some(true);
    match create_project_next(&p, "m") {
        CreateProjectAction::WriteManifest { text } => assert!(text.contains("scripts_root = \"content/scripts\"")),
        _ => panic!("expected the manifest to be written"),
    }
    // the name is checked only once the manifest file was created
    assert!(matches!(create_project_next(&p, "1bad"), CreateProjectAction::Failed(CreateProjectError::InvalidName)));
    p.manifest_written = Some(false);
    assert!(matches!(create_project_next(&p, "m"), CreateProjectAction::Failed(CreateProjectError::ManifestNotWritten)));

    let mut q = progress([false, false, false]);
    q.dir_exists = false;
    assert!(matches!(create_project_next(&q, "m"), CreateProjectAction::Failed(CreateProjectError::DirectoryMissing)));
    q.dir_exists = true;
    q.manifest_exists = true;
    assert!(matches!(create_project_next(&q, "m"), CreateProjectAction::Failed(CreateProjectError::AlreadyExists)));
    q.manifest_exists = false;
    q.root_created = Some(false);
    assert!(matches!(create_project_next(&q, "m"), CreateProjectAction::Failed(CreateProjectError::ScriptsRootNotCreated)));
    q.root_created = Some(true);
    q.manifest_created = Some(false);
    assert!(matches!(create_project_next(&q, "m"), CreateProjectAction::Failed(CreateProjectError::ManifestNotCreated)));
}

#[test]
fn repository_setup_per_candidate() {
    let mut config = Config::default();
    assert!(repository_setup(&config, vec![]).is_none());

    config.content_repositories = vec![path(true, &["repo"]), path(false, &["rel"])];
    config.game_directory = path(true, &["game"]);
    let probes = vec![
        RepositoryProbe { resolved: Some(abs(&["repo"])), is_dir: true },
        RepositoryProbe { resolved: None, is_dir: false },
        RepositoryProbe { resolved: Some(abs(&["game", "content"])), is_dir: false },
        RepositoryProbe { resolved: Some(abs(&["game", "Mods"])), is_dir: true },
    ];
    let r = repository_setup(&config, probes).unwrap();
    assert_eq!(r.len(), 4);
    assert!(matches!(&r[0], RepositorySetup::Scanner(s) if s.scan_root.components == vec!["repo"] && !s.recursive && !s.only_projects));
    assert!(matches!(&r[1], RepositorySetup::InvalidPath(p) if !p.is_absolute));
    assert!(matches!(&r[2], RepositorySetup::ScanError(ContentScanError::Io(e)) if matches!(e.error, IoError::NotFound)));
    assert!(matches!(&r[3], RepositorySetup::Scanner(s) if s.scan_root.components == vec!["game", "Mods"]));

    // an empty repository path is configured but left out
    let mut only_empty = Config::default();
    only_empty.content_repositories = vec![path(false, &[])];
    assert_eq!(repository_setup(&only_empty, vec![]).unwrap().len(), 0);
}

#[test]
fn script_files_are_ws_files() {
    assert!(is_script_file(&abs(&["r", "scripts", "a.ws"])));
    assert!(!is_script_file(&abs(&["r", "scripts", "a.wss"])));
    assert!(!is_script_file(&abs(&["r", "scripts", ".ws"])));
    assert!(!is_script_file(&abs(&["r", "scripts"])));
}
