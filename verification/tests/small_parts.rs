use witcherscript_ide::config::{Config, ConfigDifference};
use witcherscript_ide::paths::{PathBuf, PathComponent};
use witcherscript_ide::script_analysis::ScriptAnalysisKind;
use witcherscript_ide::source_mask::SourceMask;

fn path(parts: &[&str]) -> PathBuf {
    PathBuf { is_absolute: false, components: parts.iter().map(|s| PathComponent::Normal(s.to_string())).collect() }
}

#[test]
fn source_mask_test_and_union() {
    let empty = SourceMask::empty();
    assert!(empty.test(&path(&["core", "a.ws"])));
    let a = SourceMask::from_paths(vec![path(&["core", "a.ws"]), path(&["core", "b.ws"]), path(&["core", "a.ws"])]);
    let b = SourceMask::from_paths(vec![path(&["game", "c.ws"])]);
    assert!(!a.test(&path(&["core", "a.ws"])));
    assert!(a.test(&path(&["game", "c.ws"])));
    let u = a.union(&b);
    // a path passes the union exactly when it passes both masks
    for p in [path(&["core", "a.ws"]), path(&["core", "b.ws"]), path(&["game", "c.ws"]), path(&["x.ws"])] {
        assert_eq!(u.test(&p), a.test(&p) && b.test(&p));
    }
    assert!(!u.test(&path(&["game", "c.ws"])));
    assert!(u.test(&path(&["x.ws"])));
    let d = SourceMask::default();
    assert!(d.test(&path(&["x.ws"])));
    let mut m = SourceMask::empty();
    m.insert(path(&["y.ws"]));
    assert!(!m.test(&path(&["y.ws"])));
}

#[test]
fn config_difference() {
    let old = Config::default();
    let same = Config::default();
    let d = ConfigDifference::from_comparison(&old, &same);
    assert!(!d.any_changed());
    assert_eq!(d, ConfigDifference::default());

    let mut new = Config::default();
    new.enable_syntax_analysis = true;
    new.content_repositories.push(path(&["mods"]));
    let d = ConfigDifference::from_comparison(&old, &new);
    assert!(d.any_changed());
    assert!(!d.game_directory_changed);
    assert!(d.content_repositories_changed);
    assert!(d.enable_syntax_analysis_changed);
    assert!(!d.extended_search_for_workspace_symbols_changed);

    let mut moved = Config::default();
    moved.game_directory = path(&["games", "witcher3"]);
    let d = ConfigDifference::from_comparison(&old, &moved);
    assert!(d.game_directory_changed);
    assert!(d.any_changed());
}

#[test]
fn script_analysis_kinds() {
    let all = ScriptAnalysisKind::all();
    assert!(all.contains(ScriptAnalysisKind::syntax_analysis()));
    assert!(!ScriptAnalysisKind::none().contains(ScriptAnalysisKind::syntax_analysis()));
    assert!(ScriptAnalysisKind::none().contains(ScriptAnalysisKind::none()));
    assert_eq!(ScriptAnalysisKind::none().or(ScriptAnalysisKind::syntax_analysis()), all);
}

#[test]
fn notification_methods() {
    assert_eq!(witcherscript_ide::notifications::client::show_foreign_script_warning::METHOD, "witcherscript-ide/client/showForeignScriptWarning");
    assert_eq!(witcherscript_ide::notifications::projects::did_change_content_graph::METHOD, "witcherscript-ide/projects/didChangeContentGraph");
    assert_eq!(witcherscript_ide::notifications::projects::did_import_scripts::METHOD, "witcherscript-ide/projects/didImportScripts");
    assert_eq!(witcherscript_ide::notifications::scripts::did_finish_initial_indexing::METHOD, "witcherscript-ide/scripts/didFinishInitialIndexing");
    assert_eq!(witcherscript_ide::notifications::scripts::did_start_script_parsing::METHOD, "witcherscript-ide/scripts/didStartScriptParsing");
    assert_eq!(witcherscript_ide::notifications::scripts::did_finish_script_parsing::METHOD, "witcherscript-ide/scripts/didFinishScriptParsing");
    assert_eq!(witcherscript_ide::messaging::notifications::client::show_foreign_script_warning::METHOD, "witcherscript-ide/client/showForeignScriptWarning");
}
