//! Kinds of analysis that can be run on scripts.

use vstd::prelude::*;

verus! {

/// A set of analysis kinds, one bit each.
#[derive(Clone, Copy, Debug, PartialEq, Eq, Structural)]
pub struct ScriptAnalysisKind {
    pub bits: u8,
}

impl ScriptAnalysisKind {
    /// Syntax analysis: reporting syntax errors.
    pub fn syntax_analysis() -> (r: ScriptAnalysisKind)
        ensures
            r.bits == 1,
    {
        ScriptAnalysisKind { bits: 1 }
    }

    /// Every kind of analysis.
    pub fn all() -> (r: ScriptAnalysisKind)
        ensures
            r.bits == 1,
    {
        ScriptAnalysisKind { bits: 1 }
    }

    /// No analysis.
    pub fn none() -> (r: ScriptAnalysisKind)
        ensures
            r.bits == 0,
    {
        ScriptAnalysisKind { bits: 0 }
    }

    /// Whether every kind in `other` is in `self`.
    pub fn contains(&self, other: ScriptAnalysisKind) -> (r: bool)
        ensures
            r == (self.bits & other.bits == other.bits),
    {
        self.bits & other.bits == other.bits
    }

    /// The kinds in either set.
    pub fn or(&self, other: ScriptAnalysisKind) -> (r: ScriptAnalysisKind)
        ensures
            r.bits == self.bits | other.bits,
    {
        ScriptAnalysisKind { bits: self.bits | other.bits }
    }
}

/// Every set of kinds contains the empty set.
pub proof fn lemma_contains_none(bits: u8)
    ensures
        bits & 0u8 == 0u8,
{
    assert(bits & 0u8 == 0u8) by (bit_vector);
}

/// A union contains both of its parts.
pub proof fn lemma_or_contains(a: u8, b: u8)
    ensures
        (a | b) & a == a,
        (a | b) & b == b,
{
    assert((a | b) & a == a) by (bit_vector);
    assert((a | b) & b == b) by (bit_vector);
}

} // verus!
