//! Errors of the scanner construction.
use vstd::prelude::*;
use crate::text::{push_chars, push_str, str_chars, string_from_chars};

verus! {

/// An error type for the DFA.
#[derive(Debug)]
pub enum DfaError {
    /// An error occurred during the construction of the DFA.
    ConstructionError(String),
    /// An error occurred during the construction of a single-pattern DFA.
    SinglePatternDfaError(String),
}

/// The error kind type.
#[derive(Debug)]
pub enum ScnrErrorKind {
    /// An error occurred during the parsing of the regex syntax: the error text of the regex
    /// parser and the context in which it occurred.
    RegexSyntaxError(String, String),
    /// Used regex features that are not supported (yet).
    UnsupportedFeature(String),
    /// An error occurred during construction of the DFA.
    DfaError(DfaError),
}

/// The error type for the `scnr` crate.
#[derive(Debug)]
pub struct ScnrError {
    /// The source of the error.
    pub source: Box<ScnrErrorKind>,
}

/// The result type for the `scnr` crate.
pub type Result<T> = std::result::Result<T, ScnrError>;

/// The text of an error of the given kind.
pub open spec fn kind_text(kind: ScnrErrorKind) -> Seq<char> {
    match kind {
        ScnrErrorKind::RegexSyntaxError(e, ctx) => "'"@ + ctx@ + "' "@ + e@,
        ScnrErrorKind::UnsupportedFeature(s) => "Unsupported regex feature: "@ + s@,
        ScnrErrorKind::DfaError(DfaError::ConstructionError(s)) => "DFA construction error: "@ + s@,
        ScnrErrorKind::DfaError(DfaError::SinglePatternDfaError(s)) => "Single-pattern DFA construction error: "@ + s@,
    }
}

impl ScnrError {
    /// Create a new `ScnrError`.
    pub fn new(kind: ScnrErrorKind) -> (r: Self)
        ensures
            *r.source == kind,
    {
        ScnrError { source: Box::new(kind) }
    }

    /// The text of the error.
    pub fn to_string(&self) -> (r: String)
        ensures
            r@ == kind_text(*self.source),
    {
        let mut v: Vec<char> = Vec::new();
        match &*self.source {
            ScnrErrorKind::RegexSyntaxError(e, ctx) => {
                push_str(&mut v, "'");
                push_chars(&mut v, &str_chars(ctx.as_str()));
                push_str(&mut v, "' ");
                push_chars(&mut v, &str_chars(e.as_str()));
            },
            ScnrErrorKind::UnsupportedFeature(s) => {
                push_str(&mut v, "Unsupported regex feature: ");
                push_chars(&mut v, &str_chars(s.as_str()));
            },
            ScnrErrorKind::DfaError(DfaError::ConstructionError(s)) => {
                push_str(&mut v, "DFA construction error: ");
                push_chars(&mut v, &str_chars(s.as_str()));
            },
            ScnrErrorKind::DfaError(DfaError::SinglePatternDfaError(s)) => {
                push_str(&mut v, "Single-pattern DFA construction error: ");
                push_chars(&mut v, &str_chars(s.as_str()));
            },
        }
        string_from_chars(&v)
    }
}

/// An error for a regular expression feature that the scanner does not support.
pub fn unsupported(text: Vec<char>) -> (r: ScnrError)
    ensures
        *r.source matches ScnrErrorKind::UnsupportedFeature(s) && s@ == text@,
{
    ScnrError::new(ScnrErrorKind::UnsupportedFeature(string_from_chars(&text)))
}

/// The text of the error for a syntax tree nested too deeply to be followed.
pub open spec fn too_deep_text() -> Seq<char> {
    "DFA construction error: "@ + "regular expression nested too deeply"@
}

/// The error for a syntax tree nested too deeply to be followed.
pub fn too_deep() -> (r: ScnrError)
    ensures
        *r.source matches ScnrErrorKind::DfaError(_),
        kind_text(*r.source) == too_deep_text(),
{
    let mut v: Vec<char> = Vec::new();
    push_str(&mut v, "regular expression nested too deeply");
    ScnrError::new(ScnrErrorKind::DfaError(DfaError::ConstructionError(string_from_chars(&v))))
}

} // verus!
