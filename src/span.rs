use vstd::prelude::*;

verus! {

/// A half-open range of character offsets into the source text.
#[derive(Debug, Clone, Copy, PartialEq, Eq, Structural)]
pub struct Span {
    pub start: usize,
    pub end: usize,
}

impl Span {
    pub fn new(start: usize, end: usize) -> (r: Span)
        ensures
            r.start == start,
            r.end == end,
    {
        Span { start, end }
    }
}

/// Every syntax-tree node knows the source range it covers.
pub trait Node {
    /// The node's source range.
    spec fn span_spec(&self) -> Span;

    fn span(&self) -> (r: Span)
        ensures
            r == self.span_spec();
}

} // verus!
