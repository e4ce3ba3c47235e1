//! Sent when the scripts of a content have been parsed.

use vstd::prelude::*;

verus! {

pub const METHOD: &'static str = "witcherscript-ide/scripts/didFinishScriptParsing";

pub struct Parameters {
    pub content_name: String,
}

/// Marker type of this notification.
pub struct Type;

} // verus!
