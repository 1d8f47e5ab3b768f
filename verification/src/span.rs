//! Byte-offset ranges into original source text.

use vstd::prelude::*;

verus! {

/// A half-open range of byte offsets into the original source text.
///
/// Nearly every tree node and runtime value carries one, so any error can
/// cite a source location. A synthesized node that has no source location
/// carries the `unknown` sentinel.
#[derive(Debug, Clone, Copy, PartialEq, Eq, Structural)]
pub struct Span {
    pub start: u32,
    pub end: u32,
}

impl Span {
    /// True of every span this library constructs: the range is not inverted.
    pub open spec fn well_formed(self) -> bool {
        self.start <= self.end
    }

    /// True when `self` lies entirely inside `outer`.
    pub open spec fn within(self, outer: Span) -> bool {
        outer.start <= self.start && self.end <= outer.end
    }

    pub fn new(start: u32, end: u32) -> (s: Span)
        requires
            start <= end,
        ensures
            s.start == start,
            s.end == end,
            s.well_formed(),
    {
        Span { start, end }
    }

    /// The sentinel span for synthesized nodes with no source location.
    pub fn unknown() -> (s: Span)
        ensures
            s.start == 0,
            s.end == 0,
            s.well_formed(),
    {
        Span { start: 0, end: 0 }
    }
}

} // verus!
