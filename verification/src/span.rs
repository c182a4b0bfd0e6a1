//! Source positions: the `Span` of a token or syntax node, and the
//! `Spanned` pair that attaches one to a value.

use std::ops::Range;
use vstd::prelude::*;
use vstd::std_specs::convert::FromSpecImpl;

verus! {

/// A value together with the place in the source it came from.
pub type Spanned<T> = (T, Span);

/// A half-open range `[start, end)` of byte offsets into the source text.
#[derive(Debug, PartialEq, Eq, Copy, Clone, Structural)]
pub struct Span {
    pub start: usize,
    pub end: usize,
}

impl Span {
    /// A span is well formed when it does not end before it starts.
    pub open spec fn wf(self) -> bool {
        self.start <= self.end
    }

    /// Whether the span holds no byte.
    pub fn is_empty(&self) -> (r: bool)
        ensures
            r == (self.start >= self.end),
    {
        self.start >= self.end
    }
}

impl From<Range<usize>> for Span {
    fn from(value: Range<usize>) -> (r: Self) {
        Self { start: value.start, end: value.end }
    }
}

impl FromSpecImpl<Range<usize>> for Span {
    open spec fn obeys_from_spec() -> bool {
        true
    }

    open spec fn from_spec(value: Range<usize>) -> Self {
        Span { start: value.start, end: value.end }
    }
}

} // verus!
