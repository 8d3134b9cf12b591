use vstd::prelude::*;
use vstd::std_specs::convert::FromSpecImpl;

verus! {

/// A half-open byte range `[start, end)` in the source text.
#[derive(Debug, Clone, Copy, PartialEq, Eq, Structural, Hash)]
pub struct Span {
    pub start: usize,
    pub end: usize,
}

impl Span {
    /// The span used where no source position is known.
    pub open spec fn empty() -> Span {
        Span { start: 0, end: 0 }
    }
}

impl From<std::ops::Range<usize>> for Span {
    fn from(range: std::ops::Range<usize>) -> (res: Self) {
        Span { start: range.start, end: range.end }
    }
}

impl FromSpecImpl<std::ops::Range<usize>> for Span {
    open spec fn obeys_from_spec() -> bool {
        true
    }

    open spec fn from_spec(range: std::ops::Range<usize>) -> Span {
        Span { start: range.start, end: range.end }
    }
}

} // verus!
