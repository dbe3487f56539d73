//! Source ranges carried by every node of a grammar and by every diagnostic.

use vstd::prelude::*;

verus! {

/// A half-open range of source offsets, `start..end`.
#[derive(Clone, Copy, Debug, PartialEq, Eq, Structural)]
pub struct Span {
    pub start: usize,
    pub end: usize,
}

impl Span {
    /// The range from `start` up to, not including, `end`.
    pub fn new(start: usize, end: usize) -> (s: Span)
        ensures
            s.start == start,
            s.end == end,
    {
        Span { start, end }
    }

    /// True when `next` begins exactly where `self` stops, with nothing in between.
    pub fn touches(&self, next: &Span) -> (b: bool)
        ensures
            b == (self.end == next.start),
    {
        self.end == next.start
    }
}

} // verus!
