//! Matches found in a haystack.
use vstd::prelude::*;
use crate::{Position, Span};

verus! {

/// A match in the haystack.
#[derive(Clone, Copy, Debug, Eq, Hash, PartialEq, Structural)]
pub struct Match {
    /// The token type number associated with the match.
    token_type: usize,
    /// The underlying match span.
    span: Span,
}

impl Match {
    /// The token type of the match.
    pub closed spec fn spec_token_type(self) -> usize {
        self.token_type
    }

    /// The byte span of the match.
    pub closed spec fn spec_span(self) -> Span {
        self.span
    }

    /// Create a new match.
    pub fn new(token_type: usize, span: Span) -> (r: Self)
        ensures
            r.spec_token_type() == token_type,
            r.spec_span() == span,
    {
        Self { token_type, span }
    }

    /// Get the start of the match.
    pub fn start(&self) -> (r: usize)
        ensures
            r == self.spec_span().start,
    {
        self.span.start
    }

    /// Get the end of the match.
    pub fn end(&self) -> (r: usize)
        ensures
            r == self.spec_span().end,
    {
        self.span.end
    }

    /// Get the span of the match.
    pub fn span(&self) -> (r: Span)
        ensures
            r == self.spec_span(),
    {
        self.span
    }

    /// Get the span as range
    pub fn range(&self) -> (r: std::ops::Range<usize>)
        ensures
            r.start == self.spec_span().start,
            r.end == self.spec_span().end,
    {
        self.span.range()
    }

    /// Get the length of the match.
    pub fn len(&self) -> (r: usize)
        ensures
            r == (if self.spec_span().end >= self.spec_span().start {
                self.spec_span().end - self.spec_span().start
            } else {
                0
            }),
    {
        self.span.len()
    }

    /// Check if the match is empty.
    pub fn is_empty(&self) -> (r: bool)
        ensures
            r == (self.spec_span().start >= self.spec_span().end),
    {
        self.span.is_empty()
    }

    /// Get the token type of the match.
    pub fn token_type(&self) -> (r: usize)
        ensures
            r == self.spec_token_type(),
    {
        self.token_type
    }

    /// Add an offset to the match.
    /// This is used to adjust the match position after the scanner has been reset.
    pub fn add_offset(&mut self, offset: usize)
        requires
            old(self).spec_span().start + offset <= usize::MAX,
            old(self).spec_span().end + offset <= usize::MAX,
        ensures
            final(self).spec_token_type() == old(self).spec_token_type(),
            final(self).spec_span().start == old(self).spec_span().start + offset,
            final(self).spec_span().end == old(self).spec_span().end + offset,
    {
        self.span.start = self.span.start + offset;
        self.span.end = self.span.end + offset;
    }
}

/// A match with line and column information for start and end positions.
#[derive(Clone, Copy, Debug, Eq, Hash, PartialEq, Structural)]
pub struct MatchExt {
    /// The token type number associated with the match.
    token_type: usize,
    /// The underlying match span.
    span: Span,
    /// The position of the start of the match.
    start_position: Position,
    /// The position of the end of the match.
    /// The end position is exclusive.
    end_position: Position,
}

impl MatchExt {
    /// The token type of the match.
    pub closed spec fn spec_token_type(self) -> usize {
        self.token_type
    }

    /// The byte span of the match.
    pub closed spec fn spec_span(self) -> Span {
        self.span
    }

    /// The position of the first character of the match.
    pub closed spec fn spec_start_position(self) -> Position {
        self.start_position
    }

    /// The position just behind the match.
    pub closed spec fn spec_end_position(self) -> Position {
        self.end_position
    }

    /// Create a new match with positions.
    pub fn new(token_type: usize, span: Span, start_position: Position, end_position: Position) -> (r: Self)
        ensures
            r.spec_token_type() == token_type,
            r.spec_span() == span,
            r.spec_start_position() == start_position,
            r.spec_end_position() == end_position,
    {
        Self { token_type, span, start_position, end_position }
    }

    /// Get the start of the match.
    pub fn start(&self) -> (r: usize)
        ensures
            r == self.spec_span().start,
    {
        self.span.start
    }

    /// Get the end of the match.
    pub fn end(&self) -> (r: usize)
        ensures
            r == self.spec_span().end,
    {
        self.span.end
    }

    /// Get the span of the match.
    pub fn span(&self) -> (r: Span)
        ensures
            r == self.spec_span(),
    {
        self.span
    }

    /// Get the span as range
    pub fn range(&self) -> (r: std::ops::Range<usize>)
        ensures
            r.start == self.spec_span().start,
            r.end == self.spec_span().end,
    {
        self.span.range()
    }

    /// Get the length of the match.
    pub fn len(&self) -> (r: usize)
        ensures
            r == (if self.spec_span().end >= self.spec_span().start {
                self.spec_span().end - self.spec_span().start
            } else {
                0
            }),
    {
        self.span.len()
    }

    /// Check if the match is empty.
    pub fn is_empty(&self) -> (r: bool)
        ensures
            r == (self.spec_span().start >= self.spec_span().end),
    {
        self.span.is_empty()
    }

    /// Get the token type of the match.
    pub fn token_type(&self) -> (r: usize)
        ensures
            r == self.spec_token_type(),
    {
        self.token_type
    }

    /// Get the start position of the match.
    pub fn start_position(&self) -> (r: Position)
        ensures
            r == self.spec_start_position(),
    {
        self.start_position
    }

    /// Get the end position of the match.
    pub fn end_position(&self) -> (r: Position)
        ensures
            r == self.spec_end_position(),
    {
        self.end_position
    }
}

} // verus!
