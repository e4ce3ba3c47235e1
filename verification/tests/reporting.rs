use witcherscript_ide::paths::AbsPath;
use witcherscript_ide::reporting::diagnostics::{BufferedDiagnostic, DiagnosticsBuffer};

fn abs(parts: &[&str]) -> AbsPath {
    AbsPath { components: parts.iter().map(|s| s.to_string()).collect() }
}

const SYNTAX: u8 = 0;
const PROJECT: u8 = 1;

#[test]
fn push_then_commit_publishes() {
    let mut buf: DiagnosticsBuffer<String> = DiagnosticsBuffer::new();
    let a = abs(&["w", "a.ws"]);
    buf.push_diagnostic(&a, "missing semicolon".to_string(), SYNTAX);
    buf.push_diagnostics(&a, vec![BufferedDiagnostic { diag: "bad dependency".to_string(), domain: PROJECT }]);
    let published = buf.commit_diagnostics(&a);
    assert_eq!(published, vec!["missing semicolon".to_string(), "bad dependency".to_string()]);
    // nothing changed since: nothing new to publish
    assert!(buf.commit_diagnostics(&a).is_empty());
    // a file never seen publishes nothing
    assert!(buf.commit_diagnostics(&abs(&["w", "b.ws"])).is_empty());
}

#[test]
fn clear_by_domain_keeps_others() {
    let mut buf: DiagnosticsBuffer<String> = DiagnosticsBuffer::new();
    let a = abs(&["w", "a.ws"]);
    buf.push_diagnostic(&a, "s1".to_string(), SYNTAX);
    buf.push_diagnostic(&a, "p1".to_string(), PROJECT);
    buf.push_diagnostic(&a, "s2".to_string(), SYNTAX);
    buf.commit_diagnostics(&a);
    buf.clear_diagnostics(&a, SYNTAX);
    assert_eq!(buf.commit_diagnostics(&a), vec!["p1".to_string()]);
}

#[test]
fn purge_forgets_after_commit() {
    let mut buf: DiagnosticsBuffer<String> = DiagnosticsBuffer::new();
    let a = abs(&["w", "a.ws"]);
    buf.push_diagnostic(&a, "s1".to_string(), SYNTAX);
    buf.purge_diagnostics(&a);
    // the cleared list is published once, then the file is forgotten
    assert!(buf.commit_diagnostics(&a).is_empty());
    assert_eq!(buf.entries.len(), 0);
}

#[test]
fn commit_all() {
    let mut buf: DiagnosticsBuffer<String> = DiagnosticsBuffer::new();
    let a = abs(&["w", "a.ws"]);
    let b = abs(&["w", "b.ws"]);
    let c = abs(&["w", "c.ws"]);
    buf.push_diagnostic(&a, "a1".to_string(), SYNTAX);
    buf.push_diagnostic(&b, "b1".to_string(), SYNTAX);
    buf.push_diagnostic(&c, "c1".to_string(), SYNTAX);
    buf.commit_diagnostics(&b);
    buf.purge_diagnostics(&c);
    let all = buf.commit_all_diagnostics();
    assert_eq!(all.len(), 2);
    assert_eq!(all[0].0.components, a.components);
    assert_eq!(all[0].1, vec!["a1".to_string()]);
    assert_eq!(all[1].0.components, c.components);
    assert!(all[1].1.is_empty());
    assert_eq!(buf.entries.len(), 2);
    assert!(buf.commit_all_diagnostics().is_empty());
    buf.clear_all_diagnostics();
    let all = buf.commit_all_diagnostics();
    assert_eq!(all.len(), 2);
    assert!(all.iter().all(|(_, d)| d.is_empty()));
}
