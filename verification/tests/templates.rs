use std::collections::BTreeMap;
use witcherscript_ide::manifest::Manifest;
use witcherscript_ide::providers::custom::projects::{pick_scripts_root, scripts_root_candidate, CreateProjectError};
use witcherscript_ide::text::{Position, Range};

/// Reads the `[content]` name of a manifest text with the TOML reader.
fn content_name(text: &str) -> String {
    let doc: BTreeMap<String, toml::Table> = toml::from_str(text).unwrap();
    doc["content"]["name"].as_str().unwrap().to_string()
}

#[test]
fn custom_methods_test_manifest_template() {
    let (template, range) = witcherscript_ide::messaging::custom_methods::manifest_template("modFoo_Bar");
    let name = content_name(&template);
    assert!(Manifest::validate_content_name(&name));
    assert_eq!(name, "modFoo_Bar");
    assert_eq!(range, Range::new(Position::new(2, 8), Position::new(2, 18)));
    let line: &str = template.lines().nth(2).unwrap();
    assert_eq!(&line[8..18], "modFoo_Bar");
}

#[test]
fn projects_test_manifest_template() {
    let template = witcherscript_ide::providers::custom::projects::manifest_template("modFoo_Bar", "scripts");
    let doc: BTreeMap<String, toml::Table> = toml::from_str(&template).unwrap();
    assert_eq!(doc["content"]["name"].as_str().unwrap(), "modFoo_Bar");
    assert!(Manifest::validate_content_name(doc["content"]["name"].as_str().unwrap()));
    assert_eq!(doc["content"]["scripts_root"].as_str().unwrap(), "scripts");
    assert_eq!(doc["content"]["version"].as_str().unwrap(), "1.0.0");
    assert_eq!(doc["dependencies"]["content0"].as_bool(), Some(true));
}

#[test]
fn manifest_template_exact_text() {
    let template = witcherscript_ide::providers::custom::projects::manifest_template("A", "content/scripts");
    assert!(template.starts_with("# Basic information about this project\n[content]\nname = \"A\"\ndescription = \"\"\n"));
    assert!(template.contains("scripts_root = \"content/scripts\"\n"));
    assert!(template.ends_with("#manifest-format\n"));
}

#[test]
fn scripts_root_candidates() {
    assert_eq!(scripts_root_candidate(0), "scripts");
    assert_eq!(scripts_root_candidate(1), "content/scripts");
    assert_eq!(scripts_root_candidate(2), "workspace/scripts");
    assert_eq!(pick_scripts_root(&vec![false, false, false]), 0);
    assert_eq!(pick_scripts_root(&vec![false, true, true]), 1);
    assert_eq!(pick_scripts_root(&vec![false, false, true]), 2);
    assert_eq!(pick_scripts_root(&vec![true, true, false]), 0);
    assert_eq!(CreateProjectError::DirectoryMissing.code(), -1000);
    assert_eq!(CreateProjectError::InvalidName.code(), -1004);
    assert_eq!(CreateProjectError::ManifestNotWritten.code(), -1005);
}
