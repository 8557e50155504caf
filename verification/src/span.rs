use vstd::prelude::*;

verus! {

/// A byte range `(start, len)` into the original source text. Every token
/// remembers the span it was read from, and every error points at the
/// offending region with one.
#[derive(Clone, Copy, Debug, PartialEq, Eq, Structural)]
pub struct Span {
    pub start: usize,
    pub len: usize,
}

impl Span {
    pub fn new(start: usize, len: usize) -> (s: Span)
        ensures
            s == (Span { start, len }),
    {
        Span { start, len }
    }
}

} // verus!
