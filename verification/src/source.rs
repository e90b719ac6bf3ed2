//! Positions in the source being linted.
use vstd::prelude::*;

verus! {

/// A byte range of the source map, `lo` to `hi`.
#[derive(Clone, Copy, Debug, PartialEq, Eq, Structural)]
pub struct Span {
    pub lo: u32,
    pub hi: u32,
}

impl Span {
    /// Whether `other` lies within this span.
    pub open spec fn spec_contains(self, other: Span) -> bool {
        self.lo <= other.lo && other.hi <= self.hi
    }

    /// Whether `other` lies within this span.
    pub fn contains(&self, other: &Span) -> (inside: bool)
        ensures
            inside == self.spec_contains(*other),
    {
        self.lo <= other.lo && other.hi <= self.hi
    }
}

} // verus!
