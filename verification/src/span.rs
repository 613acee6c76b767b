use vstd::prelude::*;

verus! {

/// A half-open range `[start, end)` of program points: the lexical extent
/// of a borrow, or the validity extent of a binding.
#[derive(Clone, Copy, Debug, PartialEq, Eq, Structural)]
pub struct Span {
    pub start: u64,
    pub end: u64,
}

impl Span {
    /// A span is well formed when it does not end before it starts.
    pub open spec fn wf(self) -> bool {
        self.start <= self.end
    }

    /// Two half-open spans overlap when some program point lies in both.
    pub open spec fn overlaps(self, other: Span) -> bool {
        self.start < other.end && other.start < self.end
    }

    /// A single program point lies inside the span.
    pub open spec fn contains(self, p: u64) -> bool {
        self.start <= p && p < self.end
    }

    pub fn new(start: u64, end: u64) -> (r: Span)
        requires
            start <= end,
        ensures
            r == (Span { start, end }),
            r.wf(),
    {
        Span { start, end }
    }

    /// Exec mirror of [`Span::overlaps`].
    pub fn overlaps_with(&self, other: &Span) -> (r: bool)
        ensures
            r == self.overlaps(*other),
    {
        self.start < other.end && other.start < self.end
    }

    /// Exec mirror of [`Span::contains`].
    pub fn contains_point(&self, p: u64) -> (r: bool)
        ensures
            r == self.contains(p),
    {
        self.start <= p && p < self.end
    }
}

} // verus!
