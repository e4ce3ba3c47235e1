//! Sent when the first indexing of all scripts is done.

use vstd::prelude::*;

verus! {

pub const METHOD: &'static str = "witcherscript-ide/scripts/didFinishInitialIndexing";

/// Marker type of this notification.
pub struct Type;

} // verus!
