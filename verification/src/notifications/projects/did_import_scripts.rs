//! Tells the server when vanilla files have been imported to a project.

use vstd::prelude::*;

verus! {

pub const METHOD: &'static str = "witcherscript-ide/projects/didImportScripts";

} // verus!
