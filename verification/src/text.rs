//! Positions and ranges in text documents, counted in lines and characters
//! from zero.

use vstd::prelude::*;

verus! {

#[derive(Debug, Clone, Copy, PartialEq, Eq, Structural)]
pub struct Position {
    pub line: u32,
    pub character: u32,
}

#[derive(Debug, Clone, Copy, PartialEq, Eq, Structural)]
pub struct Range {
    pub start: Position,
    pub end: Position,
}

impl Position {
    pub fn new(line: u32, character: u32) -> (r: Position)
        ensures
            r == (Position { line, character }),
    {
        Position { line, character }
    }
}

impl Range {
    pub fn new(start: Position, end: Position) -> (r: Range)
        ensures
            r == (Range { start, end }),
    {
        Range { start, end }
    }

    pub open spec fn zero_spec() -> Range {
        Range { start: Position { line: 0, character: 0 }, end: Position { line: 0, character: 0 } }
    }

    /// The empty range at the start of a document.
    pub fn zero() -> (r: Range)
        ensures
            r == (Range { start: Position { line: 0, character: 0 }, end: Position { line: 0, character: 0 } }),
    {
        Range { start: Position { line: 0, character: 0 }, end: Position { line: 0, character: 0 } }
    }
}

/// A span of a text given by the index of its first element and the index
/// just past its last one.
#[derive(Debug, Clone, Copy, PartialEq, Eq, Structural)]
pub struct Span {
    pub start: usize,
    pub end: usize,
}

} // verus!
