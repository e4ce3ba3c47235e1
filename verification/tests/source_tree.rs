use witcherscript_ide::paths::{AbsPath, PathBuf, PathComponent};
use witcherscript_ide::source_tree::{SourceTree, SourceTreeDifference, SourceTreeFile, SourceTreePath, Timestamp};

fn abs(parts: &[&str]) -> AbsPath {
    AbsPath { components: parts.iter().map(|s| s.to_string()).collect() }
}

fn join(base: &AbsPath, rel: &str) -> AbsPath {
    let mut cs = base.components.clone();
    for p in rel.split('/') {
        cs.push(p.to_string());
    }
    AbsPath { components: cs }
}

fn local(parts: &[&str]) -> PathBuf {
    PathBuf { is_absolute: false, components: parts.iter().map(|s| PathComponent::Normal(s.to_string())).collect() }
}

fn file(root: &AbsPath, rel: &str, seconds: i64) -> SourceTreeFile {
    SourceTreeFile { path: SourceTreePath::new(root.copy(), join(root, rel)), modified_timestamp: Timestamp { seconds, nanos: 0 } }
}

fn names(v: &Vec<SourceTreeFile>) -> Vec<Vec<String>> {
    v.iter().map(|f| f.path.absolute().components.clone()).collect()
}

#[test]
fn source_tree_test() {
    // what a walk of dir1/proj1/scripts finds, in the order the walk met it
    let root = abs(&["home", "test_assets", "project", "dir1", "proj1", "scripts"]);
    let found = vec![
        file(&root, "local/my_local.ws", 5),
        file(&root, "engine/entity.ws", 4),
        file(&root, "core/string.ws", 3),
        file(&root, "core/2DArray.ws", 1),
        file(&root, "engine/behavior.ws", 2),
        file(&root, "core/states.ws", 6),
    ];
    let mut tree = SourceTree::new(root.copy());
    tree.scan(found, vec![]);
    assert_eq!(tree.len(), 6);
    assert!(tree.contains_local(&local(&["core", "2DArray.ws"])));
    assert!(tree.contains_local(&local(&["core", "states.ws"])));
    assert!(tree.contains_local(&local(&["core", "string.ws"])));
    assert!(tree.contains_local(&local(&["engine", "behavior.ws"])));
    assert!(tree.contains_local(&local(&["engine", "entity.ws"])));
    assert!(tree.contains_local(&local(&["local", "my_local.ws"])));

    // dir1/nested/raw2 holds no scripts
    let root = abs(&["home", "test_assets", "project", "dir1", "nested", "raw2", "content", "scripts"]);
    let mut tree = SourceTree::new(root);
    tree.scan(vec![], vec![]);
    assert_eq!(tree.len(), 0);
}

#[test]
fn source_tree_sorted_and_searchable() {
    let root = abs(&["r"]);
    let mut tree = SourceTree::new(root.copy());
    tree.scan(vec![file(&root, "b/x.ws", 1), file(&root, "a.ws", 1), file(&root, "b.ws", 1), file(&root, "a/z.ws", 1)], vec![]);
    // components compare one by one: "a" < "a.ws" < "b" < "b.ws"
    assert_eq!(
        names(tree.iter()),
        vec![
            join(&root, "a/z.ws").components,
            join(&root, "a.ws").components,
            join(&root, "b/x.ws").components,
            join(&root, "b.ws").components,
        ]
    );
    assert!(tree.contains(&join(&root, "b/x.ws")));
    assert!(!tree.contains(&join(&root, "b/y.ws")));
    assert!(tree.find(&join(&root, "a.ws")).is_some());
    assert!(tree.find_local(&local(&["b", "x.ws"])).is_some());
    assert!(tree.find_local(&local(&["c.ws"])).is_none());
    // local paths are relative and plain
    let dotted = PathBuf { is_absolute: false, components: vec![PathComponent::CurDir, PathComponent::Normal("a.ws".to_string())] };
    assert!(!tree.contains_local(&dotted));
    let absolute = PathBuf { is_absolute: true, components: vec![PathComponent::Normal("a.ws".to_string())] };
    assert!(!tree.contains_local(&absolute));
}

#[test]
fn source_tree_difference() {
    let root = abs(&["r"]);
    let mut tree = SourceTree::new(root.copy());
    let first = tree.scan(vec![file(&root, "a.ws", 1), file(&root, "b.ws", 1), file(&root, "c.ws", 1)], vec![]);
    assert_eq!(first.added.len(), 3);
    assert!(first.removed.is_empty() && first.modified.is_empty());
    let diff = tree.scan(vec![file(&root, "d.ws", 1), file(&root, "c.ws", 2), file(&root, "a.ws", 1)], vec![]);
    assert_eq!(names(&diff.added), vec![join(&root, "d.ws").components]);
    assert_eq!(names(&diff.removed), vec![join(&root, "b.ws").components]);
    assert_eq!(names(&diff.modified), vec![join(&root, "c.ws").components]);
    // the old file is the one reported as modified
    assert_eq!(diff.modified[0].modified_timestamp.seconds, 1);
    assert!(!diff.is_empty());
    // the same files again: nothing changed
    let again = tree.scan(vec![file(&root, "d.ws", 1), file(&root, "c.ws", 2), file(&root, "a.ws", 1)], vec![]);
    assert!(again.is_empty());
    // an older timestamp is no modification
    let older = tree.scan(vec![file(&root, "d.ws", 0), file(&root, "c.ws", 2), file(&root, "a.ws", 1)], vec![]);
    assert!(older.is_empty());
}

#[test]
fn source_tree_difference_from_comparison() {
    let root = abs(&["r"]);
    let old = vec![file(&root, "a.ws", 1), file(&root, "m.ws", 1)];
    let new = vec![file(&root, "m.ws", 1), file(&root, "z.ws", 1)];
    let d = SourceTreeDifference::from_comparison(old, &new);
    assert_eq!(names(&d.added), vec![join(&root, "z.ws").components]);
    assert_eq!(names(&d.removed), vec![join(&root, "a.ws").components]);
    assert!(d.modified.is_empty());
}

#[test]
fn source_tree_path_parts() {
    let root = abs(&["r", "scripts"]);
    let p = SourceTreePath::new(root.copy(), join(&root, "core/a.ws"));
    assert_eq!(p.script_root().components, root.components);
    assert_eq!(p.absolute().components, join(&root, "core/a.ws").components);
    assert!(p.local().eq(&local(&["core", "a.ws"])));
    assert!(p.into_local().eq(&local(&["core", "a.ws"])));
}

#[test]
fn timestamps_order() {
    let a = Timestamp { seconds: 1, nanos: 5 };
    assert!(a.lt(&Timestamp { seconds: 1, nanos: 6 }));
    assert!(a.lt(&Timestamp { seconds: 2, nanos: 0 }));
    assert!(!a.lt(&Timestamp { seconds: 1, nanos: 5 }));
    assert!(!a.lt(&Timestamp { seconds: 0, nanos: 9 }));
}

#[test]
fn changed_files_are_analysed_added_first() {
    let root = abs(&["r", "scripts"]);
    let diff = SourceTreeDifference {
        added: vec![file(&root, "b.ws", 1), file(&root, "c.ws", 1)],
        removed: vec![file(&root, "gone.ws", 1)],
        modified: vec![file(&root, "a.ws", 2)],
    };
    let paths: Vec<Vec<String>> = diff.paths_for_analysis().into_iter().map(|p| p.components).collect();
    assert_eq!(
        paths,
        vec![
            vec!["r".to_string(), "scripts".to_string(), "b.ws".to_string()],
            vec!["r".to_string(), "scripts".to_string(), "c.ws".to_string()],
            vec!["r".to_string(), "scripts".to_string(), "a.ws".to_string()],
        ]
    );
}

#[test]
fn difference_against_empty_trees() {
    let root = abs(&["r", "scripts"]);
    let files = vec![file(&root, "a.ws", 1), file(&root, "b.ws", 2)];
    let all_new = SourceTreeDifference::from_comparison(vec![], &files);
    assert_eq!(names(&all_new.added), names(&files));
    assert!(all_new.removed.is_empty() && all_new.modified.is_empty());
    let all_gone = SourceTreeDifference::from_comparison(vec![file(&root, "a.ws", 1), file(&root, "b.ws", 2)], &vec![]);
    assert_eq!(names(&all_gone.removed), names(&files));
    assert!(all_gone.added.is_empty() && all_gone.modified.is_empty());
    // same paths, an older timestamp: no difference; a newer one: modified
    let older = SourceTreeDifference::from_comparison(vec![file(&root, "a.ws", 5)], &vec![file(&root, "a.ws", 3)]);
    assert!(older.is_empty());
    let newer = SourceTreeDifference::from_comparison(vec![file(&root, "a.ws", 3)], &vec![file(&root, "a.ws", 5)]);
    assert!(!newer.is_empty());
}
