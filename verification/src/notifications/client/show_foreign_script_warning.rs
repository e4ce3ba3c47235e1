//! Asks the client to warn that a script is not part of any content.

use vstd::prelude::*;

verus! {

pub const METHOD: &'static str = "witcherscript-ide/client/showForeignScriptWarning";

/// Marker type of this notification.
pub struct Type;

} // verus!
