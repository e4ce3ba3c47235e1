use std::collections::BTreeMap;
use witcherscript_ide::manifest::raw;
use witcherscript_ide::manifest::{DependencyValue, Manifest, ManifestError};
use witcherscript_ide::paths::{PathBuf, PathComponent};
use witcherscript_ide::text::{Position, Range, Span};

type Table = BTreeMap<toml::Spanned<String>, toml::Spanned<toml::Value>>;

fn path_buf(s: &str) -> PathBuf {
    let components = s
        .split('/')
        .map(|p| match p {
            "." => PathComponent::CurDir,
            ".." => PathComponent::ParentDir,
            other => PathComponent::Normal(other.to_string()),
        })
        .collect();
    PathBuf { is_absolute: false, components }
}

fn same_path(a: &PathBuf, b: &PathBuf) -> bool {
    a.eq(b)
}

fn span(r: std::ops::Range<usize>) -> Span {
    Span { start: r.start, end: r.end }
}

fn get<'a>(t: &'a Table, key: &str) -> Option<&'a toml::Spanned<toml::Value>> {
    t.iter().find(|(k, _)| k.get_ref() == key).map(|(_, v)| v)
}

/// What the TOML reader makes of a manifest's text.
fn parse(text: &str) -> Result<raw::Manifest, raw::TomlError> {
    let doc: BTreeMap<String, Table> = toml::from_str(text)
        .map_err(|e| raw::TomlError { span: e.span().map(span), message: e.message().to_string() })?;
    let err = |m: &str| raw::TomlError { span: None, message: m.to_string() };
    let content = doc.get("content").ok_or_else(|| err("missing field `content`"))?;
    let name = get(content, "name").ok_or_else(|| err("missing field `name`"))?;
    let string = |v: &toml::Spanned<toml::Value>| v.get_ref().as_str().map(|s| s.to_string());
    let raw_content = raw::Content {
        name: string(name).ok_or_else(|| err("invalid type"))?,
        name_span: span(name.span()),
        description: get(content, "description").and_then(string),
        version: semver::Version::parse(&get(content, "version").and_then(string).ok_or_else(|| err("missing field `version`"))?)
            .map_err(|_| err("invalid version"))?,
        authors: get(content, "authors").map(|v| {
            v.get_ref().as_array().unwrap().iter().map(|a| a.as_str().unwrap().to_string()).collect()
        }),
        game_version: get(content, "game_version").and_then(string).ok_or_else(|| err("missing field `game_version`"))?,
        scripts_root: get(content, "scripts_root").and_then(string).map(|s| path_buf(&s)),
    };
    let deps = doc.get("dependencies").ok_or_else(|| err("missing field `dependencies`"))?;
    let mut dependencies = Vec::new();
    for (k, v) in deps {
        let value = match v.get_ref() {
            toml::Value::Boolean(b) => raw::DependencyValue::FromRepo(*b),
            toml::Value::Table(t) => raw::DependencyValue::FromPath { path: path_buf(t["path"].as_str().unwrap()) },
            _ => return Err(err("data did not match any variant")),
        };
        dependencies.push(raw::Dependency { name: k.get_ref().clone(), name_span: span(k.span()), value, value_span: span(v.span()) });
    }
    Ok(raw::Manifest { content: raw_content, dependencies })
}

fn from_str(text: &str) -> Result<Manifest, ManifestError> {
    Manifest::from_parsed(parse(text), text)
}

fn range(l1: u32, c1: u32, l2: u32, c2: u32) -> Range {
    Range::new(Position::new(l1, c1), Position::new(l2, c2))
}

#[test]
fn test_all() {
    let s = r#"
[content]
name = "ExampleMod"
description = "Short mod description"
version = "0.9.0"
authors = ["Rip Van Winkle"]
game_version = "4.04"
scripts_root = "./content/scripts"

[dependencies]
content0 = { path = "../Witcher 3/content/content0" }
shared_utils = true
"#;

    let manifest = from_str(s).ok().unwrap();

    assert_eq!(manifest.content.name, "ExampleMod");
    assert_eq!(manifest.content.description, Some("Short mod description".into()));
    assert_eq!(manifest.content.version, semver::Version::parse("0.9.0").unwrap());
    assert_eq!(manifest.content.authors, Some(vec!["Rip Van Winkle".into()]));
    assert_eq!(manifest.content.game_version, String::from("4.04"));
    assert!(same_path(manifest.content.scripts_root.as_ref().unwrap(), &path_buf("./content/scripts")));

    assert_eq!(manifest.dependencies.len(), 2);

    let content0 = &manifest.dependencies.0[0];
    assert_eq!(content0.name, "content0".to_string());
    assert_eq!(content0.name_range, range(10, 0, 10, 8));
    match &content0.value {
        DependencyValue::FromPath { path } => assert!(same_path(path, &path_buf("../Witcher 3/content/content0"))),
        _ => panic!("expected a path dependency"),
    }
    assert_eq!(content0.value_range, range(10, 11, 10, 53));

    let shared_utils = &manifest.dependencies.0[1];
    assert_eq!(shared_utils.name, "shared_utils".to_string());
    assert_eq!(shared_utils.name_range, range(11, 0, 11, 12));
    assert!(matches!(shared_utils.value, DependencyValue::FromRepo(true)));
    assert_eq!(shared_utils.value_range, range(11, 15, 11, 19));
}

#[test]
fn test_optional() {
    let s = r#"
[content]
name = "ExampleMod"
version = "1.0.0"
game_version = "4.04"

[dependencies]
"#;

    let manifest = from_str(s).ok().unwrap();

    assert_eq!(manifest.content.description, None);
    assert_eq!(manifest.content.authors, None);
    assert!(manifest.content.scripts_root.is_none());
    assert!(manifest.dependencies.0.is_empty());
}

#[test]
fn manifest_name_range() {
    let s = "\n[content]\nname = \"ExampleMod\"\nversion = \"1.0.0\"\ngame_version = \"4.04\"\n\n[dependencies]\n";
    let manifest = from_str(s).ok().unwrap();
    // the span of the string value, quotes included
    assert_eq!(manifest.content.name_range, range(2, 7, 2, 19));
}

#[test]
fn invalid_name_field() {
    let s = "[content]\nname = \"1mod\"\nversion = \"1.0.0\"\ngame_version = \"4.04\"\n\n[dependencies]\n";
    match from_str(s) {
        Err(ManifestError::InvalidNameField { range: r }) => assert_eq!(r, range(1, 7, 1, 13)),
        _ => panic!("expected an invalid name"),
    }
}

#[test]
fn toml_error_range() {
    let parsed = Err(raw::TomlError { span: Some(Span { start: 12, end: 13 }), message: "expected `=`".to_string() });
    let text = "[content]\nname \"x\"\n";
    match Manifest::from_parsed(parsed, text) {
        Err(ManifestError::Toml { range: r, msg }) => {
            assert_eq!(r, range(1, 2, 1, 3));
            assert_eq!(msg, "expected `=`");
        },
        _ => panic!("expected a TOML error"),
    }
    let parsed = Err(raw::TomlError { span: None, message: "missing field `content`".to_string() });
    match Manifest::from_parsed(parsed, "") {
        Err(ManifestError::Toml { range: r, .. }) => assert_eq!(r, range(0, 0, 0, 0)),
        _ => panic!("expected a TOML error"),
    }
}

#[test]
fn validate_content_name() {
    assert!(Manifest::validate_content_name("modFoo_Bar"));
    assert!(Manifest::validate_content_name("_private2"));
    assert!(Manifest::validate_content_name("x"));
    assert!(!Manifest::validate_content_name(""));
    assert!(!Manifest::validate_content_name("2mods"));
    assert!(!Manifest::validate_content_name("my mod"));
    assert!(!Manifest::validate_content_name("mod-name"));
    assert!(!Manifest::validate_content_name("żubr"));
}

#[test]
fn toml_parse_error_from_reader() {
    let s = "[content\nname = 1";
    let r = from_str(s);
    assert!(matches!(r, Err(ManifestError::Toml { .. })));
}
