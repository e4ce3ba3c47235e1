//! Errors attributed to a file or directory.

use vstd::prelude::*;
use crate::paths::AbsPath;

verus! {

/// An error for a file or directory.
pub struct FileError<T> {
    pub path: AbsPath,
    pub error: T,
}

/// What the operating system reported when a file or directory could not be
/// accessed.
pub enum IoError {
    /// The file or directory does not exist.
    NotFound,
    /// Any other failure, with the system's message.
    Other(String),
}

impl<T> FileError<T> {
    pub fn new(path: AbsPath, error: T) -> (r: FileError<T>)
        ensures
            r.path == path,
            r.error == error,
    {
        FileError { path, error }
    }

    pub fn error(&self) -> (r: &T)
        ensures
            *r == self.error,
    {
        &self.error
    }
}

} // verus!
