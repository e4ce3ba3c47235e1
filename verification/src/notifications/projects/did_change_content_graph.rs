//! Sent after making changes to the content graph and performing tasks associated with that.

use vstd::prelude::*;

verus! {

pub const METHOD: &'static str = "witcherscript-ide/projects/didChangeContentGraph";

/// Marker type of this notification.
pub struct Type;

} // verus!
