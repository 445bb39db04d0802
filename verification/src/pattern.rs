//! Patterns (regular expressions with token types) and lookaheads.
use vstd::prelude::*;
use crate::regex_ast::parse_outcome;
use crate::text::{escape_default, escaped, push_chars, push_str, str_chars, string_from_chars};

verus! {

/// A lookahead is a regular expression that restricts a match of a pattern so that it must be
/// matched after the pattern.
///
/// If the lookahead is negative, it must not be matched after the pattern.
/// The lookahead patterns are not considered as part of the matched string.
#[derive(Debug, Clone, PartialEq, Eq, Hash)]
pub struct Lookahead {
    /// If the lookahead is positive.
    pub is_positive: bool,
    /// The lookahead pattern.
    pub pattern: String,
}

impl Lookahead {
    /// Create a new lookahead.
    pub fn new(is_positive: bool, pattern: String) -> (r: Self)
        ensures
            r.is_positive == is_positive,
            r.pattern@ == pattern@,
    {
        Self { is_positive, pattern }
    }

    /// Get the pattern.
    pub fn pattern(&self) -> (r: &str)
        ensures
            r@ == self.pattern@,
    {
        self.pattern.as_str()
    }

    /// Check if the lookahead is positive.
    pub fn is_positive(&self) -> (r: bool)
        ensures
            r == self.is_positive,
    {
        self.is_positive
    }

    /// The text of the lookahead: `(?=` or `(?!` by its polarity, the escaped pattern, `)`.
    pub fn to_string(&self) -> (r: String)
        ensures
            r@ == lookahead_text(self.is_positive, self.pattern@),
    {
        let mut v: Vec<char> = Vec::new();
        if self.is_positive {
            push_str(&mut v, "(?=");
        } else {
            push_str(&mut v, "(?!");
        }
        push_chars(&mut v, &escape_default(&str_chars(self.pattern.as_str())));
        push_str(&mut v, ")");
        proof {
            reveal_strlit("(?=");
            reveal_strlit("(?!");
            reveal_strlit(")");
        }
        assert(v@ =~= lookahead_text(self.is_positive, self.pattern@));
        string_from_chars(&v)
    }

    /// A copy of the lookahead.
    pub fn duplicate(&self) -> (r: Self)
        ensures
            r.is_positive == self.is_positive,
            r.pattern@ == self.pattern@,
    {
        Lookahead { is_positive: self.is_positive, pattern: self.pattern.clone() }
    }
}

/// The text of a lookahead of the given polarity and pattern.
pub open spec fn lookahead_text(is_positive: bool, pattern: Seq<char>) -> Seq<char> {
    (if is_positive { seq!['(', '?', '='] } else { seq!['(', '?', '!'] }) + escaped(pattern) + seq![')']
}

/// The text of a pattern: its escaped regular expression followed by the text of its lookahead.
pub open spec fn pattern_text(pattern: Seq<char>, lookahead: Option<(bool, Seq<char>)>) -> Seq<char> {
    escaped(pattern) + match lookahead {
        Some((p, la)) => lookahead_text(p, la),
        None => Seq::empty(),
    }
}

/// A pattern that is used to match the input.
/// The pattern is represented by a regular expression and a token type number.
/// The token type number is used to identify the pattern in the scanner.
/// The pattern also has an optional [Lookahead].
#[derive(Debug, Clone, PartialEq, Eq, Hash)]
pub struct Pattern {
    pattern: String,
    token_type: usize,
    lookahead: Option<Lookahead>,
}

impl Pattern {
    /// The regular expression of the pattern.
    pub closed spec fn spec_pattern(self) -> Seq<char> {
        self.pattern@
    }

    /// The token type of the pattern.
    pub closed spec fn spec_token_type(self) -> usize {
        self.token_type
    }

    /// The lookahead of the pattern as its polarity and its regular expression.
    pub closed spec fn spec_lookahead(self) -> Option<(bool, Seq<char>)> {
        match self.lookahead {
            Some(la) => Some((la.is_positive, la.pattern@)),
            None => None,
        }
    }

    /// Create a new pattern.
    pub fn new(pattern: String, token_type: usize) -> (r: Self)
        ensures
            r.spec_pattern() == pattern@,
            r.spec_token_type() == token_type,
            r.spec_lookahead() is None,
    {
        Self { pattern, token_type, lookahead: None }
    }

    /// Set the token type of the pattern.
    pub fn set_token_type(&mut self, token_type: usize)
        ensures
            final(self).spec_pattern() == old(self).spec_pattern(),
            final(self).spec_token_type() == token_type,
            final(self).spec_lookahead() == old(self).spec_lookahead(),
    {
        self.token_type = token_type;
    }

    /// Create a new pattern with lookahead.
    pub fn with_lookahead(self, lookahead: Lookahead) -> (r: Self)
        ensures
            r.spec_pattern() == self.spec_pattern(),
            r.spec_token_type() == self.spec_token_type(),
            r.spec_lookahead() == Some((lookahead.is_positive, lookahead.pattern@)),
    {
        Self { pattern: self.pattern, token_type: self.token_type, lookahead: Some(lookahead) }
    }

    /// Get the pattern.
    pub fn pattern(&self) -> (r: &str)
        ensures
            r@ == self.spec_pattern(),
    {
        self.pattern.as_str()
    }

    /// Get the token type.
    pub fn terminal_id(&self) -> (r: usize)
        ensures
            r == self.spec_token_type(),
    {
        self.token_type
    }

    /// Get the lookahead.
    pub fn lookahead(&self) -> (r: Option<&Lookahead>)
        ensures
            match r {
                Some(la) => self.spec_lookahead() == Some((la.is_positive, la.pattern@)),
                None => self.spec_lookahead() is None,
            },
    {
        match &self.lookahead {
            Some(la) => Some(la),
            None => None,
        }
    }

    /// The text of the pattern: its escaped regular expression followed by the text of its
    /// lookahead, if any.
    pub fn to_string(&self) -> (r: String)
        ensures
            r@ == pattern_text(self.spec_pattern(), self.spec_lookahead()),
    {
        let mut v = escape_default(&str_chars(self.pattern.as_str()));
        match &self.lookahead {
            Some(la) => {
                let t = la.to_string();
                push_chars(&mut v, &str_chars(t.as_str()));
            },
            None => {},
        }
        assert(v@ =~= pattern_text(self.spec_pattern(), self.spec_lookahead()));
        string_from_chars(&v)
    }

    /// A copy of the pattern.
    pub fn duplicate(&self) -> (r: Self)
        ensures
            r.spec_pattern() == self.spec_pattern(),
            r.spec_token_type() == self.spec_token_type(),
            r.spec_lookahead() == self.spec_lookahead(),
    {
        let lookahead = match &self.lookahead {
            Some(la) => Some(la.duplicate()),
            None => None,
        };
        Pattern { pattern: self.pattern.clone(), token_type: self.token_type, lookahead }
    }
}

/// `regex_syntax` parses the regular expression of the pattern and that of its lookahead, if any
/// (see [parse_outcome]).
pub open spec fn pattern_parses(p: Pattern) -> bool {
    &&& parse_outcome(p.spec_pattern()) is None
    &&& p.spec_lookahead() matches Some((_, t)) ==> parse_outcome(t) is None
}

} // verus!
