use witcherscript_ide::content::ContentScanError;
use witcherscript_ide::content_graph::ContentGraphError;
use witcherscript_ide::file_error::{FileError, IoError};
use witcherscript_ide::manifest::ManifestError;
use witcherscript_ide::paths::{AbsPath, PathBuf, PathComponent};
use witcherscript_ide::redkit::manifest::Error as RedkitError;
use witcherscript_ide::reporting::graph_reports::{
    report_content_graph_error, report_content_scan_error, LogLevel, LogMessage, ProjectDiagnosticKind, Report,
};
use witcherscript_ide::text::{Position, Range};

fn abs(parts: &[&str]) -> AbsPath {
    AbsPath { components: parts.iter().map(|s| s.to_string()).collect() }
}

fn range(line: u32, a: u32, b: u32) -> Range {
    Range::new(Position::new(line, a), Position::new(line, b))
}

fn diagnostic(r: &Report) -> (&AbsPath, Range, &ProjectDiagnosticKind) {
    match r {
        Report::Diagnostic { path, diagnostic } => (path, diagnostic.range, &diagnostic.kind),
        Report::Log { .. } => panic!("expected a diagnostic"),
    }
}

#[test]
fn dependency_errors_are_diagnostics_at_the_entry() {
    let manifest = abs(&["w", "p", "witcherscript.toml"]);
    let r = report_content_graph_error(ContentGraphError::DependencyNameNotFound {
        content_name: "dep".to_string(),
        manifest_path: manifest.copy(),
        manifest_range: range(7, 0, 3),
    });
    assert_eq!(r.len(), 1);
    let (path, rg, kind) = diagnostic(&r[0]);
    assert_eq!(path.components, manifest.components);
    assert_eq!((rg.start.line, rg.start.character, rg.end.character), (7, 0, 3));
    assert!(matches!(kind, ProjectDiagnosticKind::ProjectDependencyNameNotFound(n) if n == "dep"));

    let r = report_content_graph_error(ContentGraphError::SelfDependency { manifest_path: manifest.copy(), manifest_range: range(2, 1, 4) });
    assert!(matches!(diagnostic(&r[0]).2, ProjectDiagnosticKind::ProjectSelfDependency));

    let r = report_content_graph_error(ContentGraphError::DependencyPathNotFound {
        content_path: PathBuf { is_absolute: false, components: vec![PathComponent::Normal("x".to_string())] },
        manifest_path: manifest.copy(),
        manifest_range: range(3, 0, 1),
    });
    assert!(matches!(diagnostic(&r[0]).2, ProjectDiagnosticKind::ProjectDependencyPathNotFound(_)));

    let r = report_content_graph_error(ContentGraphError::MultipleMatchingDependencies {
        content_name: "dep".to_string(),
        manifest_path: manifest.copy(),
        manifest_range: range(4, 0, 1),
        matching_paths: vec![abs(&["r", "a"]), abs(&["r", "b"])],
    });
    match diagnostic(&r[0]).2 {
        ProjectDiagnosticKind::MultipleMatchingProjectDependencies { content_name, matching_paths } => {
            assert_eq!(content_name, "dep");
            assert_eq!(matching_paths.len(), 2);
        },
        _ => panic!("wrong kind"),
    }
}

#[test]
fn manifest_errors_become_diagnostics_or_log_lines() {
    let path = abs(&["w", "p", "witcherscript.toml"]);
    let toml = report_content_graph_error(ContentGraphError::ManifestRead(FileError {
        path: path.copy(),
        error: ManifestError::Toml { range: range(1, 2, 3), msg: "expected `=`".to_string() },
    }));
    assert!(matches!(diagnostic(&toml[0]).2, ProjectDiagnosticKind::InvalidProjectManifest(m) if m == "expected `=`"));

    let name = report_content_graph_error(ContentGraphError::ManifestRead(FileError {
        path: path.copy(),
        error: ManifestError::InvalidNameField { range: range(1, 7, 12) },
    }));
    assert!(matches!(diagnostic(&name[0]).2, ProjectDiagnosticKind::InvalidProjectName));

    let io = report_content_graph_error(ContentGraphError::ManifestRead(FileError {
        path: path.copy(),
        error: ManifestError::Io { message: "denied".to_string() },
    }));
    assert!(matches!(&io[0], Report::Log { level: LogLevel::Error, message: LogMessage::ManifestReadFailure { message, .. } } if message == "denied"));

    let json = report_content_graph_error(ContentGraphError::RedkitManifestRead(FileError {
        path: abs(&["w", "k", "k.w3edit"]),
        error: RedkitError::Json { position: Position::new(4, 9), msg: "eof".to_string() },
    }));
    let (_, rg, kind) = diagnostic(&json[0]);
    assert_eq!((rg.start.line, rg.start.character, rg.end.line, rg.end.character), (4, 9, 4, 9));
    assert!(matches!(kind, ProjectDiagnosticKind::InvalidRedkitProjectManifest(m) if m == "eof"));
}

#[test]
fn scan_and_native_errors_are_logged() {
    let io = report_content_graph_error(ContentGraphError::Io(FileError { path: abs(&["r"]), error: IoError::NotFound }));
    assert!(matches!(&io[0], Report::Log { level: LogLevel::Warning, message: LogMessage::ContentGraphIssue { .. } }));

    let native = report_content_graph_error(ContentGraphError::NativeContentNotFound(None));
    assert_eq!(native.len(), 1);
    let native = report_content_graph_error(ContentGraphError::NativeContentNotFound(Some(ContentScanError::NotContent)));
    assert_eq!(native.len(), 2);
    assert!(matches!(&native[0], Report::Log { level: LogLevel::Error, message: LogMessage::NativeContentNotFound }));
    assert!(matches!(&native[1], Report::Log { level: LogLevel::Error, message: LogMessage::NativeContentScanFailure(ContentScanError::NotContent) }));

    assert!(report_content_scan_error(ContentScanError::NotContent).is_empty());
    let scan = report_content_scan_error(ContentScanError::Io(FileError { path: abs(&["r"]), error: IoError::Other("busy".to_string()) }));
    assert!(matches!(&scan[0], Report::Log { level: LogLevel::Warning, message: LogMessage::ContentScanIssue { .. } }));
}
