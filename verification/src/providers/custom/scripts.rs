//! Telling which content a script belongs to.

use vstd::prelude::*;
use crate::content_graph::{ContentGraph, has_path, is_first_with_path};
use crate::paths::AbsPath;
use super::projects::{ContentInfo, content_info, info_of};

verus! {

/// Why a script's parent content could not be told.
#[derive(Clone, Copy, Debug, PartialEq, Eq, Structural)]
pub enum ParentContentError {
    /// This script file is unknown to the language server
    UnknownScript,
    /// Script does not belong to any content in the content graph
    NoParentContent,
    /// Could not find content in content graph
    ContentNotInGraph,
}

impl ParentContentError {
    pub fn code(&self) -> (r: i64)
        ensures
            r == match self {
                ParentContentError::UnknownScript => -1020,
                ParentContentError::NoParentContent => -1021,
                ParentContentError::ContentNotInGraph => -1022,
            },
    {
        match self {
            ParentContentError::UnknownScript => -1020,
            ParentContentError::NoParentContent => -1021,
            ParentContentError::ContentNotInGraph => -1022,
        }
    }
}

/// The content that a script belongs to: `script_known` tells whether the
/// server knows the script, and `parent_content_path` the path of the
/// content recorded for it, if any.
pub fn parent_content(graph: &ContentGraph, script_known: bool, parent_content_path: Option<&AbsPath>) -> (r: Result<ContentInfo, ParentContentError>)
    ensures
        !script_known ==> r == Err::<ContentInfo, ParentContentError>(ParentContentError::UnknownScript),
        script_known && parent_content_path is None ==> r == Err::<ContentInfo, ParentContentError>(ParentContentError::NoParentContent),
        script_known && parent_content_path is Some ==> match r {
            Ok(info) => exists|i: int| is_first_with_path(graph.nodes@, parent_content_path->0@, i) && info_of(info, #[trigger] graph.nodes@[i]),
            Err(e) => e == ParentContentError::ContentNotInGraph && !has_path(graph.nodes@, parent_content_path->0@),
        },
{
    if !script_known {
        return Err(ParentContentError::UnknownScript);
    }
    match parent_content_path {
        None => Err(ParentContentError::NoParentContent),
        Some(path) => match graph.get_node_by_path(path) {
            Some(n) => Ok(content_info(n)),
            None => Err(ParentContentError::ContentNotInGraph),
        },
    }
}

} // verus!
