//! How problems met while scanning contents and building the content graph
//! are reported: as a diagnostic attached to a manifest, or as a line in the
//! server's log.

use vstd::prelude::*;
use crate::content::ContentScanError;
use crate::content_graph::ContentGraphError;
use crate::file_error::{FileError, IoError};
use crate::manifest::ManifestError;
use crate::paths::{AbsPath, PathBuf};
use crate::redkit;
use crate::text::Range;

verus! {

/// The kinds of diagnostic that the project system attaches to manifests.
pub enum ProjectDiagnosticKind {
    InvalidProjectManifest(String),
    InvalidProjectName,
    InvalidRedkitProjectManifest(String),
    ProjectDependencyPathNotFound(PathBuf),
    ProjectDependencyNameNotFound(String),
    ProjectDependencyNameNotFoundAtPath(String),
    MultipleMatchingProjectDependencies { content_name: String, matching_paths: Vec<AbsPath> },
    ProjectSelfDependency,
}

/// A diagnostic at a range of a manifest.
pub struct ProjectDiagnostic {
    pub range: Range,
    pub kind: ProjectDiagnosticKind,
}

/// How loud a log line is.
pub enum LogLevel {
    Info,
    Warning,
    Error,
}

/// What a log line says; its wording is left to the logger.
pub enum LogMessage {
    /// A content directory could not be scanned.
    ContentScanIssue { path: AbsPath, error: IoError },
    /// A file met while building the graph could not be accessed.
    ContentGraphIssue { path: AbsPath, error: IoError },
    /// A project manifest could not be read.
    ManifestReadFailure { path: AbsPath, message: String },
    /// A REDkit project file could not be read.
    RedkitManifestReadFailure { path: AbsPath, message: String },
    /// The native content directory could not be found.
    NativeContentNotFound,
    /// Why the native content directory was not taken as content.
    NativeContentScanFailure(ContentScanError),
}

/// One report: a diagnostic pushed for a file, or a log line.
pub enum Report {
    Diagnostic { path: AbsPath, diagnostic: ProjectDiagnostic },
    Log { level: LogLevel, message: LogMessage },
}

pub open spec fn diagnostic_report(path: AbsPath, range: Range, kind: ProjectDiagnosticKind) -> Report {
    Report::Diagnostic { path, diagnostic: ProjectDiagnostic { range, kind } }
}

/// The report of a manifest that could not be read: a log line where the
/// file could not be accessed, a diagnostic at the offending range
/// otherwise.
pub open spec fn manifest_read_reports(err: FileError<ManifestError>) -> Seq<Report> {
    match err.error {
        ManifestError::Io { message } => seq![
            Report::Log {
                level: LogLevel::Error,
                message: LogMessage::ManifestReadFailure { path: err.path, message },
            },
        ],
        ManifestError::Toml { range, msg } => seq![
            diagnostic_report(err.path, range, ProjectDiagnosticKind::InvalidProjectManifest(msg)),
        ],
        ManifestError::InvalidNameField { range } => seq![
            diagnostic_report(err.path, range, ProjectDiagnosticKind::InvalidProjectName),
        ],
    }
}

/// The report of a REDkit project file that could not be read; a JSON
/// error is attached at its position, as an empty range.
pub open spec fn redkit_manifest_read_reports(err: FileError<redkit::manifest::Error>) -> Seq<Report> {
    match err.error {
        redkit::manifest::Error::Io { message } => seq![
            Report::Log {
                level: LogLevel::Error,
                message: LogMessage::RedkitManifestReadFailure { path: err.path, message },
            },
        ],
        redkit::manifest::Error::Json { position, msg } => seq![
            diagnostic_report(
                err.path,
                Range { start: position, end: position },
                ProjectDiagnosticKind::InvalidRedkitProjectManifest(msg),
            ),
        ],
    }
}

/// The reports of a failed content scan; a directory that is no content
/// is not reported.
pub open spec fn content_scan_reports(err: ContentScanError) -> Seq<Report> {
    match err {
        ContentScanError::Io(e) => seq![
            Report::Log {
                level: LogLevel::Warning,
                message: LogMessage::ContentScanIssue { path: e.path, error: e.error },
            },
        ],
        ContentScanError::ManifestRead(e) => manifest_read_reports(e),
        ContentScanError::RedkitManifestRead(e) => redkit_manifest_read_reports(e),
        ContentScanError::NotContent => Seq::empty(),
    }
}

/// The reports of an error of the content graph: a dependency problem is a
/// diagnostic at the dependency's entry in the manifest.
pub open spec fn content_graph_reports(err: ContentGraphError) -> Seq<Report> {
    match err {
        ContentGraphError::Io(e) => seq![
            Report::Log {
                level: LogLevel::Warning,
                message: LogMessage::ContentGraphIssue { path: e.path, error: e.error },
            },
        ],
        ContentGraphError::ManifestRead(e) => manifest_read_reports(e),
        ContentGraphError::RedkitManifestRead(e) => redkit_manifest_read_reports(e),
        ContentGraphError::DependencyPathNotFound { content_path, manifest_path, manifest_range } => seq![
            diagnostic_report(
                manifest_path,
                manifest_range,
                ProjectDiagnosticKind::ProjectDependencyPathNotFound(content_path),
            ),
        ],
        ContentGraphError::DependencyNameNotFound { content_name, manifest_path, manifest_range } => seq![
            diagnostic_report(
                manifest_path,
                manifest_range,
                ProjectDiagnosticKind::ProjectDependencyNameNotFound(content_name),
            ),
        ],
        ContentGraphError::DependencyNameNotFoundAtPath { content_name, manifest_path, manifest_range } => seq![
            diagnostic_report(
                manifest_path,
                manifest_range,
                ProjectDiagnosticKind::ProjectDependencyNameNotFoundAtPath(content_name),
            ),
        ],
        ContentGraphError::MultipleMatchingDependencies {
            content_name,
            manifest_path,
            manifest_range,
            matching_paths,
        } => seq![
            diagnostic_report(
                manifest_path,
                manifest_range,
                ProjectDiagnosticKind::MultipleMatchingProjectDependencies { content_name, matching_paths },
            ),
        ],
        ContentGraphError::SelfDependency { manifest_path, manifest_range } => seq![
            diagnostic_report(manifest_path, manifest_range, ProjectDiagnosticKind::ProjectSelfDependency),
        ],
        ContentGraphError::NativeContentNotFound(scan_err) => match scan_err {
            Some(e) => seq![
                Report::Log { level: LogLevel::Error, message: LogMessage::NativeContentNotFound },
                Report::Log { level: LogLevel::Error, message: LogMessage::NativeContentScanFailure(e) },
            ],
            None => seq![Report::Log { level: LogLevel::Error, message: LogMessage::NativeContentNotFound }],
        },
    }
}

pub fn report_manifest_read_error(err: FileError<ManifestError>) -> (r: Vec<Report>)
    ensures
        r@ == manifest_read_reports(err),
{
    let FileError { path, error } = err;
    let report = match error {
        ManifestError::Io { message } => Report::Log {
            level: LogLevel::Error,
            message: LogMessage::ManifestReadFailure { path, message },
        },
        ManifestError::Toml { range, msg } => Report::Diagnostic {
            path,
            diagnostic: ProjectDiagnostic { range, kind: ProjectDiagnosticKind::InvalidProjectManifest(msg) },
        },
        ManifestError::InvalidNameField { range } => Report::Diagnostic {
            path,
            diagnostic: ProjectDiagnostic { range, kind: ProjectDiagnosticKind::InvalidProjectName },
        },
    };
    let r = vec![report];
    assert(r@ =~= manifest_read_reports(err));
    r
}

pub fn report_redkit_manifest_read_error(err: FileError<redkit::manifest::Error>) -> (r: Vec<Report>)
    ensures
        r@ == redkit_manifest_read_reports(err),
{
    let FileError { path, error } = err;
    let report = match error {
        redkit::manifest::Error::Io { message } => Report::Log {
            level: LogLevel::Error,
            message: LogMessage::RedkitManifestReadFailure { path, message },
        },
        redkit::manifest::Error::Json { position, msg } => Report::Diagnostic {
            path,
            diagnostic: ProjectDiagnostic {
                range: Range { start: position, end: position },
                kind: ProjectDiagnosticKind::InvalidRedkitProjectManifest(msg),
            },
        },
    };
    let r = vec![report];
    assert(r@ =~= redkit_manifest_read_reports(err));
    r
}

pub fn report_content_scan_error(err: ContentScanError) -> (r: Vec<Report>)
    ensures
        r@ == content_scan_reports(err),
{
    match err {
        ContentScanError::Io(e) => {
            let FileError { path, error } = e;
            let r = vec![
                Report::Log { level: LogLevel::Warning, message: LogMessage::ContentScanIssue { path, error } },
            ];
            assert(r@ =~= content_scan_reports(err));
            r
        },
        ContentScanError::ManifestRead(e) => report_manifest_read_error(e),
        ContentScanError::RedkitManifestRead(e) => report_redkit_manifest_read_error(e),
        ContentScanError::NotContent => {
            let r: Vec<Report> = Vec::new();
            assert(r@ =~= content_scan_reports(err));
            r
        },
    }
}

fn one_diagnostic(path: AbsPath, range: Range, kind: ProjectDiagnosticKind) -> (r: Vec<Report>)
    ensures
        r@ == seq![diagnostic_report(path, range, kind)],
{
    let r = vec![Report::Diagnostic { path, diagnostic: ProjectDiagnostic { range, kind } }];
    assert(r@ =~= seq![diagnostic_report(path, range, kind)]);
    r
}

pub fn report_content_graph_error(err: ContentGraphError) -> (r: Vec<Report>)
    ensures
        r@ == content_graph_reports(err),
{
    match err {
        ContentGraphError::Io(e) => {
            let FileError { path, error } = e;
            let r = vec![
                Report::Log { level: LogLevel::Warning, message: LogMessage::ContentGraphIssue { path, error } },
            ];
            assert(r@ =~= content_graph_reports(err));
            r
        },
        ContentGraphError::ManifestRead(e) => report_manifest_read_error(e),
        ContentGraphError::RedkitManifestRead(e) => report_redkit_manifest_read_error(e),
        ContentGraphError::DependencyPathNotFound { content_path, manifest_path, manifest_range } => one_diagnostic(
            manifest_path,
            manifest_range,
            ProjectDiagnosticKind::ProjectDependencyPathNotFound(content_path),
        ),
        ContentGraphError::DependencyNameNotFound { content_name, manifest_path, manifest_range } => one_diagnostic(
            manifest_path,
            manifest_range,
            ProjectDiagnosticKind::ProjectDependencyNameNotFound(content_name),
        ),
        ContentGraphError::DependencyNameNotFoundAtPath { content_name, manifest_path, manifest_range } =>
            one_diagnostic(
            manifest_path,
            manifest_range,
            ProjectDiagnosticKind::ProjectDependencyNameNotFoundAtPath(content_name),
        ),
        ContentGraphError::MultipleMatchingDependencies {
            content_name,
            manifest_path,
            manifest_range,
            matching_paths,
        } => one_diagnostic(
            manifest_path,
            manifest_range,
            ProjectDiagnosticKind::MultipleMatchingProjectDependencies { content_name, matching_paths },
        ),
        ContentGraphError::SelfDependency { manifest_path, manifest_range } => one_diagnostic(
            manifest_path,
            manifest_range,
            ProjectDiagnosticKind::ProjectSelfDependency,
        ),
        ContentGraphError::NativeContentNotFound(scan_err) => {
            let mut r = vec![Report::Log { level: LogLevel::Error, message: LogMessage::NativeContentNotFound }];
            match scan_err {
                Some(e) => {
                    r.push(Report::Log { level: LogLevel::Error, message: LogMessage::NativeContentScanFailure(e) });
                },
                None => {},
            }
            assert(r@ =~= content_graph_reports(err));
            r
        },
    }
}

} // verus!
