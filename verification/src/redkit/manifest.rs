//! The `.w3edit` project file of a REDkit project.

use vstd::prelude::*;
use crate::text::Position;

verus! {

pub struct RedkitManifest {
    pub name: String,
    pub version: String,
    pub game_version: String,
    pub author: String,
    pub description: String,
}

/// A failure of the JSON reader, with the line and column it reports
/// (counted from one; zero when it knows none).
pub struct JsonError {
    pub line: usize,
    pub column: usize,
    pub message: String,
}

pub enum Error {
    /// The file could not be read.
    Io { message: String },
    /// The text is not JSON of the manifest's shape.
    Json { position: Position, msg: String },
}

/// A count from one (or zero for none) as an index from zero.
pub open spec fn zero_based(n: usize) -> u32 {
    (if n >= 1 {
        n - 1
    } else {
        0
    }) as u32
}

/// Extension of the project file.
pub fn redkit_extension() -> (r: &'static str)
    ensures
        r@ == seq!['w', '3', 'e', 'd', 'i', 't'],
{
    let r = "w3edit";
    proof {
        reveal_strlit("w3edit");
    }
    r
}

impl RedkitManifest {
    /// Reads a REDkit manifest: `parsed` is what the JSON reader made of
    /// the file. A reader failure is reported at its line and column, made
    /// zero-based.
    pub fn from_parsed(parsed: Result<RedkitManifest, JsonError>) -> (r: Result<RedkitManifest, Error>)
        requires
            parsed is Err ==> parsed->Err_0.line <= u32::MAX && parsed->Err_0.column <= u32::MAX,
        ensures
            parsed is Ok ==> r is Ok && r->Ok_0 == parsed->Ok_0,
            parsed is Err ==> r == Err::<RedkitManifest, Error>(
                Error::Json {
                    position: Position {
                        line: zero_based(parsed->Err_0.line),
                        character: zero_based(parsed->Err_0.column),
                    },
                    msg: parsed->Err_0.message,
                },
            ),
    {
        match parsed {
            Ok(m) => Ok(m),
            Err(e) => {
                let line: u32 = if e.line >= 1 { e.line as u32 } else { 1 };
                let column: u32 = if e.column >= 1 { e.column as u32 } else { 1 };
                Err(Error::Json { position: Position { line: line - 1, character: column - 1 }, msg: e.message })
            },
        }
    }
}

} // verus!
