//! Byte ranges in a haystack.
use vstd::prelude::*;
use vstd::std_specs::convert::FromSpecImpl;
use crate::text::{decimal, push_chars, push_str, string_from_chars, usize_to_decimal};

verus! {

/// A span in a source file.
#[derive(Debug, Clone, Copy, Eq, Hash, PartialEq, Structural)]
pub struct Span {
    /// The start offset of the span, inclusive.
    pub start: usize,
    /// The end offset of the span, exclusive.
    pub end: usize,
}

impl Span {
    /// Create a new span.
    pub fn new(start: usize, end: usize) -> (r: Self)
        ensures
            r.start == start,
            r.end == end,
    {
        Span { start, end }
    }

    /// Check if the span is empty.
    pub fn is_empty(&self) -> (r: bool)
        ensures
            r == (self.start >= self.end),
    {
        self.start >= self.end
    }

    /// Get the length of the span.
    pub fn len(&self) -> (r: usize)
        ensures
            r == (if self.end >= self.start { self.end - self.start } else { 0 }),
    {
        self.end.saturating_sub(self.start)
    }

    /// Get the span as range.
    pub fn range(self) -> (r: std::ops::Range<usize>)
        ensures
            r.start == self.start,
            r.end == self.end,
    {
        self.start..self.end
    }

    /// The text `start..end` of the span.
    pub fn to_string(&self) -> (r: String)
        ensures
            r@ == decimal(self.start as nat) + ".."@ + decimal(self.end as nat),
    {
        let mut v = usize_to_decimal(self.start);
        push_str(&mut v, "..");
        push_chars(&mut v, &usize_to_decimal(self.end));
        string_from_chars(&v)
    }
}

impl From<std::ops::Range<usize>> for Span {
    /// The span of a range.
    fn from(range: std::ops::Range<usize>) -> (r: Self) {
        Span { start: range.start, end: range.end }
    }
}

impl FromSpecImpl<std::ops::Range<usize>> for Span {
    open spec fn obeys_from_spec() -> bool {
        true
    }

    open spec fn from_spec(range: std::ops::Range<usize>) -> Self {
        Span { start: range.start, end: range.end }
    }
}

} // verus!
