//! The manifest as the TOML reader hands it over: the values of the fields
//! and, for the ones that are reported back to the user, where they stand in
//! the text.

use vstd::prelude::*;
use crate::paths::PathBuf;
use crate::text::Span;

verus! {

pub struct Manifest {
    pub content: Content,
    /// Dependency entries in the order the reader lists them.
    pub dependencies: Vec<Dependency>,
}

pub struct Content {
    pub name: String,
    pub name_span: Span,
    pub description: Option<String>,
    pub version: semver::Version,
    pub authors: Option<Vec<String>>,
    pub game_version: String,
    pub scripts_root: Option<PathBuf>,
}

pub struct Dependency {
    pub name: String,
    pub name_span: Span,
    pub value: DependencyValue,
    pub value_span: Span,
}

/// Value of a dependency entry as written: either a boolean or a table with
/// a `path` key.
pub enum DependencyValue {
    FromRepo(bool),
    FromPath { path: PathBuf },
}

/// A failure of the TOML reader: its message and, when it knows one, the
/// span of the text it concerns.
pub struct TomlError {
    pub span: Option<Span>,
    pub message: String,
}

} // verus!
