//! Sent when the scripts of a content start being parsed.

use vstd::prelude::*;

verus! {

pub const METHOD: &'static str = "witcherscript-ide/scripts/didStartScriptParsing";

pub struct Parameters {
    pub content_name: String,
}

/// Marker type of this notification.
pub struct Type;

} // verus!
