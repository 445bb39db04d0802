//! Line and column positions in a haystack.
use vstd::prelude::*;
use crate::text::{decimal, push_chars, push_str, string_from_chars, usize_to_decimal};

verus! {

/// A position in the haystack.
/// The position is represented by a line and column number.
/// The line and column numbers are 1-based.
#[derive(Clone, Copy, Debug, Eq, PartialEq, Hash, Structural)]
pub struct Position {
    /// The line number of the position.
    pub line: usize,
    /// The column number of the position.
    pub column: usize,
}

/// The text `line: L, column: C` of a position.
pub open spec fn position_text(line: nat, column: nat) -> Seq<char> {
    "line: "@ + decimal(line) + ", column: "@ + decimal(column)
}

impl Position {
    /// Create a new position. Line and column numbers start at one.
    pub fn new(line: usize, column: usize) -> (r: Self)
        requires
            line > 0,
            column > 0,
        ensures
            r.line == line,
            r.column == column,
    {
        Self { line, column }
    }

    /// Get the line number of the position.
    pub fn line(&self) -> (r: usize)
        ensures
            r == self.line,
    {
        self.line
    }

    /// Get the column number of the position.
    pub fn column(&self) -> (r: usize)
        ensures
            r == self.column,
    {
        self.column
    }

    /// The position rendered as `line: L, column: C`.
    pub fn to_string(&self) -> (r: String)
        ensures
            r@ == position_text(self.line as nat, self.column as nat),
    {
        let mut v: Vec<char> = Vec::new();
        push_str(&mut v, "line: ");
        let l = usize_to_decimal(self.line);
        push_chars(&mut v, &l);
        push_str(&mut v, ", column: ");
        let c = usize_to_decimal(self.column);
        push_chars(&mut v, &c);
        string_from_chars(&v)
    }
}

/// A provider of the line and column information of byte offsets in the haystack.
/// It also provides a method to set the offset of the underlying character iterator.
pub trait PositionProvider {
    /// The provider can give positions.
    spec fn provides_positions(&self) -> bool;

    /// The iteration can be set to start at the offset.
    spec fn offset_allowed(&self, offset: usize) -> bool;

    /// Returns the position of the given offset.
    fn position(&self, offset: usize) -> Position
        requires
            self.provides_positions(),
            offset < usize::MAX,
    ;

    /// Set the position of the char indices iterator to the given offset. Use this to let the
    /// iterator start at a specific offset.
    fn set_offset(&mut self, offset: usize)
        requires
            old(self).offset_allowed(offset),
    ;
}

} // verus!
