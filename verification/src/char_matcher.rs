//! Character classes as predicates on characters, and their construction from the syntax tree
//! of a class.
//!
//! A class is built from literals, ranges, POSIX, Perl and Unicode classes, unions, negations
//! and set operations. The Unicode properties it refers to are asked of `seshat` and of
//! `char`'s methods (see [crate::unicode_props]).
use vstd::prelude::*;
use crate::errors::{kind_text, too_deep, too_deep_text, unsupported, ScnrError, ScnrErrorKind};
use crate::regex_ast::{
    ascii_class, ast_class, ast_node, ast_text, class_item_node, class_set_node, perl_class, unicode_class,
    AsciiClass, AstNode, ClassNode, ClassSetNode, PerlClass,
    SetOperation, UnicodeClass,
};
use crate::text::{push_chars, push_str, str_chars};
use regex_syntax::ast::{Ast, ClassSet, ClassSetItem};
use crate::unicode_props::{
    char_alphabetic, char_alphanumeric, char_control, char_lowercase, char_numeric, char_uppercase,
    char_whitespace, named_property, pc_or_mn, prop_alphabetic, prop_join_control, prop_terminal_punctuation,
    property_of_name, ucd_has, ucd_matches, UcdProperty,
};

verus! {

/// True if `c` lies in one of the inclusive `ranges`.
pub open spec fn ranges_contain(ranges: Seq<(char, char)>, c: char) -> bool {
    exists|i: int| 0 <= i < ranges.len() && ranges[i].0 <= c && c <= ranges[i].1
}

/// Checks whether `c` lies in one of the inclusive `ranges`.
pub fn in_ranges(ranges: &Vec<(char, char)>, c: char) -> (r: bool)
    ensures
        r == ranges_contain(ranges@, c),
{
    let mut i: usize = 0;
    while i < ranges.len()
        invariant
            i <= ranges@.len(),
            forall|j: int| 0 <= j < i ==> !(ranges@[j].0 <= c && c <= ranges@[j].1),
        decreases ranges@.len() - i,
    {
        let (lo, hi) = ranges[i];
        if lo <= c && c <= hi {
            return true;
        }
        i = i + 1;
    }
    false
}

/// A predicate on characters.
#[derive(Debug)]
pub enum CharMatcher {
    /// No character.
    Nothing,
    /// The characters in one of the inclusive ranges.
    Ranges(Vec<(char, char)>),
    /// The characters that have the property.
    Property(UcdProperty),
    /// The characters the inner matcher does not match.
    Not(Box<CharMatcher>),
    /// The characters that either matcher matches.
    Either(Box<CharMatcher>, Box<CharMatcher>),
    /// The characters that both matchers match.
    Both(Box<CharMatcher>, Box<CharMatcher>),
    /// The characters that the first matcher matches and the second does not.
    Without(Box<CharMatcher>, Box<CharMatcher>),
    /// The characters that exactly one of the matchers matches.
    OneOf(Box<CharMatcher>, Box<CharMatcher>),
}

/// The matcher `m` matches `c`.
pub open spec fn matcher_has(m: CharMatcher, c: char) -> bool
    decreases m,
{
    match m {
        CharMatcher::Nothing => false,
        CharMatcher::Ranges(r) => ranges_contain(r@, c),
        CharMatcher::Property(p) => ucd_has(p, c),
        CharMatcher::Not(a) => !matcher_has(*a, c),
        CharMatcher::Either(a, b) => matcher_has(*a, c) || matcher_has(*b, c),
        CharMatcher::Both(a, b) => matcher_has(*a, c) && matcher_has(*b, c),
        CharMatcher::Without(a, b) => matcher_has(*a, c) && !matcher_has(*b, c),
        CharMatcher::OneOf(a, b) => matcher_has(*a, c) != matcher_has(*b, c),
    }
}

impl CharMatcher {
    /// Checks whether the matcher matches `c`.
    pub fn matches(&self, c: char) -> (r: bool)
        ensures
            r == matcher_has(*self, c),
        decreases self,
    {
        match self {
            CharMatcher::Nothing => false,
            CharMatcher::Ranges(r) => in_ranges(r, c),
            CharMatcher::Property(p) => ucd_matches(*p, c),
            CharMatcher::Not(a) => !(**a).matches(c),
            CharMatcher::Either(a, b) => (**a).matches(c) || (**b).matches(c),
            CharMatcher::Both(a, b) => (**a).matches(c) && (**b).matches(c),
            CharMatcher::Without(a, b) => (**a).matches(c) && !(**b).matches(c),
            CharMatcher::OneOf(a, b) => (**a).matches(c) != (**b).matches(c),
        }
    }
}

/// A line feed or a carriage return: the characters that the dot does not match.
pub open spec fn is_line_end(c: char) -> bool {
    c == '\n' || c == '\r'
}

/// A literal character of a class: a verbatim `.` is the dot, any other literal is itself.
pub open spec fn literal_has(lit: char, verbatim: bool, c: char) -> bool {
    if lit == '.' && verbatim {
        !is_line_end(c)
    } else {
        c == lit
    }
}

/// What a set operation makes of the membership of a character in its two operands.
pub open spec fn operation_has(op: SetOperation, a: bool, b: bool) -> bool {
    match op {
        SetOperation::Intersection => a && b,
        SetOperation::Difference => a && !b,
        SetOperation::SymmetricDifference => a != b,
    }
}

/// A word character: alphanumeric, a join control, a connector punctuation or a non-spacing
/// mark.
pub open spec fn word_has(c: char) -> bool {
    ||| ucd_has(UcdProperty::CharAlphanumeric, c)
    ||| ucd_has(UcdProperty::JoinControl, c)
    ||| ucd_has(UcdProperty::ConnectorPunctuation, c)
    ||| ucd_has(UcdProperty::NonspacingMark, c)
}

/// The characters of a POSIX class. The letter, digit, case and space classes take their
/// Unicode meaning, the others their ASCII one.
pub open spec fn ascii_class_has(kind: AsciiClass, c: char) -> bool {
    match kind {
        AsciiClass::Alnum => ucd_has(UcdProperty::CharAlphanumeric, c),
        AsciiClass::Alpha => ucd_has(UcdProperty::CharAlphabetic, c),
        AsciiClass::Ascii => '\0' <= c <= '\u{7f}',
        AsciiClass::Blank => ('\t' <= c <= '\n') || ('\u{c}' <= c <= '\r') || c == ' ',
        AsciiClass::Cntrl => ('\0' <= c <= '\u{1f}') || c == '\u{7f}',
        AsciiClass::Digit => ucd_has(UcdProperty::CharNumeric, c),
        AsciiClass::Graph => '!' <= c <= '~',
        AsciiClass::Lower => ucd_has(UcdProperty::CharLowercase, c),
        AsciiClass::Print => '!' <= c <= '~',
        AsciiClass::Punct => ('!' <= c <= '/') || (':' <= c <= '@') || ('[' <= c <= '`') || ('{' <= c <= '~'),
        AsciiClass::Space => ucd_has(UcdProperty::CharWhitespace, c),
        AsciiClass::Upper => ucd_has(UcdProperty::CharUppercase, c),
        AsciiClass::Word => word_has(c),
        AsciiClass::Xdigit => ('0' <= c <= '9') || ('A' <= c <= 'F') || ('a' <= c <= 'f'),
    }
}

/// The characters of a Perl class: numeric characters, white space, word characters.
pub open spec fn perl_class_has(kind: PerlClass, c: char) -> bool {
    match kind {
        PerlClass::Digit => ucd_has(UcdProperty::CharNumeric, c),
        PerlClass::Space => ucd_has(UcdProperty::CharWhitespace, c),
        PerlClass::Word => word_has(c),
    }
}

/// The property that a one letter Unicode class stands for: letters are alphabetic
/// characters, numbers numeric ones, separators white space, punctuation terminal punctuation
/// and others control characters.
pub open spec fn letter_property(letter: char) -> Option<UcdProperty> {
    if letter == 'L' {
        Some(UcdProperty::Alphabetic)
    } else if letter == 'N' {
        Some(UcdProperty::CharNumeric)
    } else if letter == 'Z' {
        Some(UcdProperty::CharWhitespace)
    } else if letter == 'P' {
        Some(UcdProperty::TerminalPunctuation)
    } else if letter == 'C' {
        Some(UcdProperty::CharControl)
    } else {
        None
    }
}

/// The property that a Unicode class stands for, `None` for one that is not supported.
pub open spec fn unicode_class_property(kind: UnicodeClass) -> Option<UcdProperty> {
    match kind {
        UnicodeClass::OneLetter(letter) => letter_property(letter),
        UnicodeClass::Named(name) => named_property(name@),
        UnicodeClass::NamedValue(_, _) => None,
    }
}

/// A Unicode class is supported: a one letter class of letters, numbers, separators,
/// punctuation or others, or a named class of one of the binary properties.
pub open spec fn unicode_class_known(kind: UnicodeClass) -> bool {
    unicode_class_property(kind) is Some
}

/// `c` has the property of a supported Unicode class.
pub open spec fn unicode_class_has(kind: UnicodeClass, c: char) -> bool {
    ucd_has(unicode_class_property(kind)->0, c)
}

/// What each POSIX class contains: `[:alnum:]` the characters that `char::is_alphanumeric`
/// accepts, `[:alpha:]` the alphabetic, `[:digit:]` the numeric, `[:lower:]` the lowercase,
/// `[:upper:]` the uppercase and `[:space:]` the white space characters as `char` defines them;
/// `[:word:]` the alphanumeric characters, the join controls, the connector punctuation and the
/// non-spacing marks; the others their ASCII sets (`[:blank:]` is the ASCII white space,
/// `[:print:]` the same as `[:graph:]`).
pub proof fn lemma_posix_class_meaning(c: char)
    ensures
        ascii_class_has(AsciiClass::Alnum, c) == char_alphanumeric(c),
        ascii_class_has(AsciiClass::Alpha, c) == char_alphabetic(c),
        ascii_class_has(AsciiClass::Digit, c) == char_numeric(c),
        ascii_class_has(AsciiClass::Lower, c) == char_lowercase(c),
        ascii_class_has(AsciiClass::Upper, c) == char_uppercase(c),
        ascii_class_has(AsciiClass::Space, c) == char_whitespace(c),
        ascii_class_has(AsciiClass::Word, c)
            == (char_alphanumeric(c) || prop_join_control(c) || pc_or_mn(c).0 || pc_or_mn(c).1),
        ascii_class_has(AsciiClass::Ascii, c) == (c as u32 <= 0x7f),
        ascii_class_has(AsciiClass::Blank, c) == (c == ' ' || c == '\t' || c == '\n' || c == '\u{c}' || c == '\r'),
        ascii_class_has(AsciiClass::Cntrl, c) == (c as u32 <= 0x1f || c as u32 == 0x7f),
        ascii_class_has(AsciiClass::Graph, c) == (0x21 <= c as u32 <= 0x7e),
        ascii_class_has(AsciiClass::Print, c) == ascii_class_has(AsciiClass::Graph, c),
        ascii_class_has(AsciiClass::Punct, c) == (0x21 <= c as u32 <= 0x7e && !(0x30 <= c as u32 <= 0x39)
            && !(0x41 <= c as u32 <= 0x5a) && !(0x61 <= c as u32 <= 0x7a)),
        ascii_class_has(AsciiClass::Xdigit, c) == (0x30 <= c as u32 <= 0x39 || 0x41 <= c as u32 <= 0x46
            || 0x61 <= c as u32 <= 0x66),
{
}

/// What each Perl class contains: `\d` the numeric and `\s` the white space characters as
/// `char` defines them, `\w` the same characters as `[:word:]`.
pub proof fn lemma_perl_class_meaning(c: char)
    ensures
        perl_class_has(PerlClass::Digit, c) == char_numeric(c),
        perl_class_has(PerlClass::Space, c) == char_whitespace(c),
        perl_class_has(PerlClass::Word, c) == ascii_class_has(AsciiClass::Word, c),
        perl_class_has(PerlClass::Word, c)
            == (char_alphanumeric(c) || prop_join_control(c) || pc_or_mn(c).0 || pc_or_mn(c).1),
{
}

/// What each one letter Unicode class contains: `\pL` the characters with the `Alphabetic`
/// property, `\pN` the characters that `char::is_numeric` accepts, `\pZ` the white space,
/// `\pP` the characters with the `Terminal_Punctuation` property and `\pC` the control
/// characters; no other letter names a class that can be matched.
pub proof fn lemma_one_letter_class_meaning(letter: char, c: char)
    ensures
        unicode_class_known(UnicodeClass::OneLetter('L')),
        unicode_class_has(UnicodeClass::OneLetter('L'), c) == prop_alphabetic(c),
        unicode_class_known(UnicodeClass::OneLetter('N')),
        unicode_class_has(UnicodeClass::OneLetter('N'), c) == char_numeric(c),
        unicode_class_known(UnicodeClass::OneLetter('Z')),
        unicode_class_has(UnicodeClass::OneLetter('Z'), c) == char_whitespace(c),
        unicode_class_known(UnicodeClass::OneLetter('P')),
        unicode_class_has(UnicodeClass::OneLetter('P'), c) == prop_terminal_punctuation(c),
        unicode_class_known(UnicodeClass::OneLetter('C')),
        unicode_class_has(UnicodeClass::OneLetter('C'), c) == char_control(c),
        unicode_class_known(UnicodeClass::OneLetter(letter))
            <==> (letter == 'L' || letter == 'N' || letter == 'Z' || letter == 'P' || letter == 'C'),
{
}

/// The description of a Unicode class that cannot be matched.
pub open spec fn unicode_error_text(kind: UnicodeClass) -> Seq<char> {
    match kind {
        UnicodeClass::OneLetter(letter) => "Unicode class one letter "@ + seq![letter],
        UnicodeClass::Named(name) => "Unicode named class "@ + name@,
        UnicodeClass::NamedValue(name, value) => "Named value "@ + name@ + "="@ + value@,
    }
}

/// A matcher for the inclusive range from `lo` to `hi`.
pub fn range_matcher(lo: char, hi: char) -> (r: CharMatcher)
    ensures
        forall|c: char| matcher_has(r, c) == (lo <= c <= hi),
{
    let mut v: Vec<(char, char)> = Vec::new();
    v.push((lo, hi));
    let r = CharMatcher::Ranges(v);
    assert forall|c: char| matcher_has(r, c) == (lo <= c <= hi) by {
        if lo <= c && c <= hi {
            assert(v@[0] == (lo, hi));
        }
    }
    r
}

/// A matcher for the characters that either `a` or `b` matches.
pub fn either(a: CharMatcher, b: CharMatcher) -> (r: CharMatcher)
    ensures
        forall|c: char| matcher_has(r, c) == (matcher_has(a, c) || matcher_has(b, c)),
{
    CharMatcher::Either(Box::new(a), Box::new(b))
}

/// The matcher `m`, negated where `negated` is set.
pub fn negate(m: CharMatcher, negated: bool) -> (r: CharMatcher)
    ensures
        forall|c: char| matcher_has(r, c) == (negated != matcher_has(m, c)),
{
    if negated {
        CharMatcher::Not(Box::new(m))
    } else {
        m
    }
}

/// A matcher for the set operation `op` on the characters of `a` and `b`.
pub fn set_operation(op: SetOperation, a: CharMatcher, b: CharMatcher) -> (r: CharMatcher)
    ensures
        forall|c: char| matcher_has(r, c) == operation_has(op, matcher_has(a, c), matcher_has(b, c)),
{
    match op {
        SetOperation::Intersection => CharMatcher::Both(Box::new(a), Box::new(b)),
        SetOperation::Difference => CharMatcher::Without(Box::new(a), Box::new(b)),
        SetOperation::SymmetricDifference => CharMatcher::OneOf(Box::new(a), Box::new(b)),
    }
}

/// A matcher for the dot: any character but a line feed or a carriage return.
pub fn dot_matcher() -> (r: CharMatcher)
    ensures
        forall|c: char| matcher_has(r, c) == !is_line_end(c),
{
    negate(either(range_matcher('\n', '\n'), range_matcher('\r', '\r')), true)
}

/// A matcher for a literal character of a class.
pub fn literal_matcher(lit: char, verbatim: bool) -> (r: CharMatcher)
    ensures
        forall|c: char| matcher_has(r, c) == literal_has(lit, verbatim, c),
{
    if lit == '.' && verbatim {
        dot_matcher()
    } else {
        range_matcher(lit, lit)
    }
}

/// A matcher for word characters.
pub fn word_matcher() -> (r: CharMatcher)
    ensures
        forall|c: char| matcher_has(r, c) == word_has(c),
{
    either(
        either(CharMatcher::Property(UcdProperty::CharAlphanumeric), CharMatcher::Property(UcdProperty::JoinControl)),
        either(CharMatcher::Property(UcdProperty::ConnectorPunctuation), CharMatcher::Property(UcdProperty::NonspacingMark)),
    )
}

/// A matcher for a POSIX class.
pub fn ascii_matcher(kind: AsciiClass) -> (r: CharMatcher)
    ensures
        forall|c: char| matcher_has(r, c) == ascii_class_has(kind, c),
{
    match kind {
        AsciiClass::Alnum => CharMatcher::Property(UcdProperty::CharAlphanumeric),
        AsciiClass::Alpha => CharMatcher::Property(UcdProperty::CharAlphabetic),
        AsciiClass::Ascii => range_matcher('\0', '\u{7f}'),
        AsciiClass::Blank => either(either(range_matcher('\t', '\n'), range_matcher('\u{c}', '\r')), range_matcher(' ', ' ')),
        AsciiClass::Cntrl => either(range_matcher('\0', '\u{1f}'), range_matcher('\u{7f}', '\u{7f}')),
        AsciiClass::Digit => CharMatcher::Property(UcdProperty::CharNumeric),
        AsciiClass::Graph => range_matcher('!', '~'),
        AsciiClass::Lower => CharMatcher::Property(UcdProperty::CharLowercase),
        AsciiClass::Print => range_matcher('!', '~'),
        AsciiClass::Punct => either(
            either(range_matcher('!', '/'), range_matcher(':', '@')),
            either(range_matcher('[', '`'), range_matcher('{', '~')),
        ),
        AsciiClass::Space => CharMatcher::Property(UcdProperty::CharWhitespace),
        AsciiClass::Upper => CharMatcher::Property(UcdProperty::CharUppercase),
        AsciiClass::Word => word_matcher(),
        AsciiClass::Xdigit => either(
            either(range_matcher('0', '9'), range_matcher('A', 'F')),
            range_matcher('a', 'f'),
        ),
    }
}

/// A matcher for a Perl class.
pub fn perl_matcher(kind: PerlClass) -> (r: CharMatcher)
    ensures
        forall|c: char| matcher_has(r, c) == perl_class_has(kind, c),
{
    match kind {
        PerlClass::Digit => CharMatcher::Property(UcdProperty::CharNumeric),
        PerlClass::Space => CharMatcher::Property(UcdProperty::CharWhitespace),
        PerlClass::Word => word_matcher(),
    }
}

/// The error for a Unicode class that cannot be matched.
fn unicode_error(kind: &UnicodeClass) -> (r: ScnrError)
    ensures
        *r.source matches ScnrErrorKind::UnsupportedFeature(t) && t@ == unicode_error_text(*kind),
{
    let mut t: Vec<char> = Vec::new();
    match kind {
        UnicodeClass::OneLetter(letter) => {
            push_str(&mut t, "Unicode class one letter ");
            t.push(*letter);
        },
        UnicodeClass::Named(name) => {
            push_str(&mut t, "Unicode named class ");
            push_str(&mut t, name.as_str());
        },
        UnicodeClass::NamedValue(name, value) => {
            push_str(&mut t, "Named value ");
            push_str(&mut t, name.as_str());
            push_str(&mut t, "=");
            push_str(&mut t, value.as_str());
        },
    }
    unsupported(t)
}

/// A matcher for a Unicode class, negated where `negated` is set; an error for a class that is
/// not supported or whose property is not known.
pub fn unicode_matcher(kind: &UnicodeClass, negated: bool) -> (r: Result<CharMatcher, ScnrError>)
    ensures
        r is Ok <==> unicode_class_known(*kind),
        r matches Ok(m) ==> forall|c: char|
            matcher_has(m, c) == (negated != unicode_class_has(*kind, c)),
        r matches Err(e) ==> *e.source matches ScnrErrorKind::UnsupportedFeature(t) && t@ == unicode_error_text(*kind),
{
    let property = match kind {
        UnicodeClass::OneLetter(letter) => {
            if *letter == 'L' {
                UcdProperty::Alphabetic
            } else if *letter == 'N' {
                UcdProperty::CharNumeric
            } else if *letter == 'Z' {
                UcdProperty::CharWhitespace
            } else if *letter == 'P' {
                UcdProperty::TerminalPunctuation
            } else if *letter == 'C' {
                UcdProperty::CharControl
            } else {
                return Err(unicode_error(kind));
            }
        },
        UnicodeClass::Named(name) => match property_of_name(name.as_str()) {
            Some(p) => p,
            None => return Err(unicode_error(kind)),
        },
        UnicodeClass::NamedValue(_, _) => {
            return Err(unicode_error(kind));
        },
    };
    Ok(negate(CharMatcher::Property(property), negated))
}

/// A character class as a tree of plain values.
#[derive(Debug)]
pub enum ClassTree {
    /// The empty item, which matches every character.
    Empty,
    /// The dot: every character but a line end.
    Dot,
    /// A literal character, and whether it is written verbatim.
    Literal(char, bool),
    /// An inclusive range of characters.
    Range(char, char),
    /// A POSIX class, negated where the flag is set.
    Ascii(AsciiClass, bool),
    /// A Unicode class, negated where the flag is set.
    Unicode(UnicodeClass, bool),
    /// A Perl class, negated where the flag is set.
    Perl(PerlClass, bool),
    /// A bracketed class set, negated where the flag is set.
    Bracketed(bool, Box<ClassTree>),
    /// The characters of any of the items.
    Union(Vec<ClassTree>),
    /// A set operation on two class sets.
    Operation(SetOperation, Box<ClassTree>, Box<ClassTree>),
    /// A part nested deeper than the conversion follows.
    TooDeep,
}

/// The characters of a class: a negation takes the complement of what it stands before, a
/// union the characters of any item, and a set operation combines the membership in its
/// operands.
pub open spec fn class_has(t: ClassTree, c: char) -> bool
    decreases t,
{
    match t {
        ClassTree::Empty => true,
        ClassTree::Dot => !is_line_end(c),
        ClassTree::Literal(lit, verbatim) => literal_has(lit, verbatim, c),
        ClassTree::Range(lo, hi) => lo <= c <= hi,
        ClassTree::Ascii(kind, negated) => negated != ascii_class_has(kind, c),
        ClassTree::Unicode(kind, negated) => negated != unicode_class_has(kind, c),
        ClassTree::Perl(kind, negated) => negated != perl_class_has(kind, c),
        ClassTree::Bracketed(negated, set) => negated != class_has(*set, c),
        ClassTree::Union(items) => union_has(items@, c),
        ClassTree::Operation(op, a, b) => operation_has(op, class_has(*a, c), class_has(*b, c)),
        ClassTree::TooDeep => false,
    }
}

/// One of the items contains `c`.
pub open spec fn union_has(items: Seq<ClassTree>, c: char) -> bool
    decreases items,
{
    if items.len() == 0 {
        false
    } else {
        union_has(items.drop_last(), c) || class_has(items.last(), c)
    }
}

/// The text of an error for a feature that is not supported.
pub open spec fn unsupported_text(s: Seq<char>) -> Seq<char> {
    "Unsupported regex feature: "@ + s
}

/// The text of the error for the first part of the class, left to right, that cannot be
/// matched: an unsupported Unicode class, or a part nested too deeply; `None` where every part
/// can be matched.
pub open spec fn class_refusal(t: ClassTree) -> Option<Seq<char>>
    decreases t,
{
    match t {
        ClassTree::Unicode(kind, _) => if unicode_class_known(kind) {
            None
        } else {
            Some(unsupported_text(unicode_error_text(kind)))
        },
        ClassTree::Bracketed(_, set) => class_refusal(*set),
        ClassTree::Union(items) => union_refusal(items@),
        ClassTree::Operation(_, a, b) => match class_refusal(*a) {
            Some(e) => Some(e),
            None => class_refusal(*b),
        },
        ClassTree::TooDeep => Some(too_deep_text()),
        _ => None,
    }
}

/// The error of the first item that cannot be matched.
pub open spec fn union_refusal(items: Seq<ClassTree>) -> Option<Seq<char>>
    decreases items,
{
    if items.len() == 0 {
        None
    } else {
        match union_refusal(items.drop_last()) {
            Some(e) => Some(e),
            None => class_refusal(items.last()),
        }
    }
}

/// The elementary parts of a class: the dot and a verbatim `.` match every character but a
/// line feed and a carriage return, any other literal itself, a range the characters between
/// its ends, the empty item every character; a set operation combines the membership of a
/// character in its two operands as intersection, difference or symmetric difference.
pub proof fn lemma_class_item_meaning(c: char, lit: char, lo: char, hi: char, a: ClassTree, b: ClassTree)
    ensures
        class_has(ClassTree::Dot, c) == (c != '\n' && c != '\r'),
        class_has(ClassTree::Literal('.', true), c) == (c != '\n' && c != '\r'),
        class_has(ClassTree::Literal(lit, false), c) == (c == lit),
        lit != '.' ==> class_has(ClassTree::Literal(lit, true), c) == (c == lit),
        class_has(ClassTree::Range(lo, hi), c) == (lo <= c && c <= hi),
        class_has(ClassTree::Empty, c),
        class_has(ClassTree::Operation(SetOperation::Intersection, Box::new(a), Box::new(b)), c)
            == (class_has(a, c) && class_has(b, c)),
        class_has(ClassTree::Operation(SetOperation::Difference, Box::new(a), Box::new(b)), c)
            == (class_has(a, c) && !class_has(b, c)),
        class_has(ClassTree::Operation(SetOperation::SymmetricDifference, Box::new(a), Box::new(b)), c)
            == (class_has(a, c) != class_has(b, c)),
{
}

/// A union of class items matches a character exactly when one of its items does.
pub proof fn lemma_union_meaning(items: Seq<ClassTree>, c: char)
    ensures
        union_has(items, c) <==> exists|i: int| 0 <= i < items.len() && class_has(#[trigger] items[i], c),
    decreases items.len(),
{
    if items.len() > 0 {
        let rest = items.drop_last();
        lemma_union_meaning(rest, c);
        if union_has(rest, c) {
            let i = choose|i: int| 0 <= i < rest.len() && class_has(#[trigger] rest[i], c);
            assert(items[i] == rest[i]);
        }
        if class_has(items.last(), c) {
            assert(class_has(items[items.len() - 1], c));
        }
        if exists|i: int| 0 <= i < items.len() && class_has(#[trigger] items[i], c) {
            let i = choose|i: int| 0 <= i < items.len() && class_has(#[trigger] items[i], c);
            if i < items.len() - 1 {
                assert(rest[i] == items[i]);
            }
        }
    }
}

/// A negated class set matches exactly the characters the same set without negation does not
/// match, and can be matched exactly when that one can.
pub proof fn lemma_negation_is_complement(set: ClassTree, c: char)
    ensures
        class_has(ClassTree::Bracketed(true, Box::new(set)), c) == !class_has(ClassTree::Bracketed(false, Box::new(set)), c),
        class_refusal(ClassTree::Bracketed(true, Box::new(set))) == class_refusal(ClassTree::Bracketed(false, Box::new(set))),
{
}

/// The matcher of a class tree: an error for the first part, left to right, that cannot be
/// matched.
pub fn tree_matcher(t: &ClassTree) -> (r: Result<CharMatcher, ScnrError>)
    ensures
        r is Ok <==> class_refusal(*t) is None,
        r matches Ok(m) ==> forall|c: char| matcher_has(m, c) == class_has(*t, c),
        r matches Err(e) ==> class_refusal(*t) == Some(kind_text(*e.source)),
    decreases t,
{
    match t {
        ClassTree::Empty => Ok(negate(CharMatcher::Nothing, true)),
        ClassTree::Dot => Ok(dot_matcher()),
        ClassTree::Literal(lit, verbatim) => Ok(literal_matcher(*lit, *verbatim)),
        ClassTree::Range(lo, hi) => Ok(range_matcher(*lo, *hi)),
        ClassTree::Ascii(kind, negated) => Ok(negate(ascii_matcher(*kind), *negated)),
        ClassTree::Unicode(kind, negated) => {
            match unicode_matcher(kind, *negated) {
                Ok(m) => Ok(m),
                Err(e) => Err(e),
            }
        },
        ClassTree::Perl(kind, negated) => Ok(negate(perl_matcher(*kind), *negated)),
        ClassTree::Bracketed(negated, set) => match tree_matcher(&**set) {
            Ok(m) => Ok(negate(m, *negated)),
            Err(e) => Err(e),
        },
        ClassTree::Union(items) => union_tree_matcher(items),
        ClassTree::Operation(op, a, b) => {
            let ma = match tree_matcher(&**a) {
                Ok(m) => m,
                Err(e) => return Err(e),
            };
            let mb = match tree_matcher(&**b) {
                Ok(m) => m,
                Err(e) => return Err(e),
            };
            Ok(set_operation(*op, ma, mb))
        },
        ClassTree::TooDeep => Err(too_deep()),
    }
}

/// The matcher of a union of class trees: an error for the first item that cannot be matched.
fn union_tree_matcher(items: &Vec<ClassTree>) -> (r: Result<CharMatcher, ScnrError>)
    ensures
        r is Ok <==> union_refusal(items@) is None,
        r matches Ok(m) ==> forall|c: char| matcher_has(m, c) == union_has(items@, c),
        r matches Err(e) ==> union_refusal(items@) == Some(kind_text(*e.source)),
    decreases items@,
{
    let mut m = CharMatcher::Nothing;
    let mut i: usize = 0;
    while i < items.len()
        invariant
            i <= items@.len(),
            union_refusal(items@.take(i as int)) is None,
            forall|c: char| matcher_has(m, c) == union_has(items@.take(i as int), c),
        decreases items.len() - i,
    {
        assert(items@.take(i + 1).drop_last() =~= items@.take(i as int));
        assert(items@.take(i + 1).last() == items@[i as int]);
        assert(decreases_to!(items@ => items@[i as int]));
        match tree_matcher(&items[i]) {
            Ok(next) => {
                m = either(m, next);
            },
            Err(e) => {
                proof {
                    lemma_union_refusal_prefix(items@, i as int + 1);
                }
                return Err(e);
            },
        }
        i = i + 1;
    }
    assert(items@.take(i as int) =~= items@);
    Ok(m)
}

/// Where a prefix of the items has an error, the items have the same first error.
proof fn lemma_union_refusal_prefix(items: Seq<ClassTree>, k: int)
    requires
        0 <= k <= items.len(),
        union_refusal(items.take(k)) is Some,
    ensures
        union_refusal(items) == union_refusal(items.take(k)),
    decreases items.len() - k,
{
    if k < items.len() {
        assert(items.take(k + 1).drop_last() =~= items.take(k));
        lemma_union_refusal_prefix(items, k + 1);
    } else {
        assert(items.take(k) =~= items);
    }
}

/// The class tree of a class set item, negated where `negated` is set, followed at most
/// `depth` deep.
fn item_tree(item: &ClassSetItem, negated: bool, depth: usize) -> (r: ClassTree)
    decreases depth,
{
    if depth == 0 {
        return ClassTree::TooDeep;
    }
    let t = match class_item_node(item) {
        ClassNode::Empty => ClassTree::Empty,
        ClassNode::Literal(lit, verbatim) => ClassTree::Literal(lit, verbatim),
        ClassNode::Range(lo, hi) => ClassTree::Range(lo, hi),
        ClassNode::Ascii(a) => {
            let (kind, neg) = ascii_class(&a);
            ClassTree::Ascii(kind, neg)
        },
        ClassNode::Unicode(u) => {
            let (kind, neg) = unicode_class(&u);
            ClassTree::Unicode(kind, neg)
        },
        ClassNode::Perl(p) => {
            let (kind, neg) = perl_class(&p);
            ClassTree::Perl(kind, neg)
        },
        ClassNode::Bracketed(neg, set) => set_tree(&set, neg, depth - 1),
        ClassNode::Union(items) => {
            let mut trees: Vec<ClassTree> = Vec::new();
            let mut i: usize = 0;
            while i < items.len()
                invariant
                    depth > 0,
                    i <= items@.len(),
                decreases items.len() - i,
            {
                trees.push(item_tree(&items[i], false, depth - 1));
                i = i + 1;
            }
            ClassTree::Union(trees)
        },
    };
    if negated {
        ClassTree::Bracketed(true, Box::new(t))
    } else {
        t
    }
}

/// The class tree of a class set, negated where `negated` is set, followed at most `depth`
/// deep.
fn set_tree(set: &ClassSet, negated: bool, depth: usize) -> (r: ClassTree)
    decreases depth,
{
    if depth == 0 {
        return ClassTree::TooDeep;
    }
    match class_set_node(set) {
        ClassSetNode::Item(item) => item_tree(&item, negated, depth - 1),
        ClassSetNode::BinaryOp(op, lhs, rhs) => {
            let a = set_tree(&lhs, false, depth - 1);
            let b = set_tree(&rhs, false, depth - 1);
            let t = ClassTree::Operation(op, Box::new(a), Box::new(b));
            if negated {
                ClassTree::Bracketed(true, Box::new(t))
            } else {
                t
            }
        },
    }
}

/// The class tree of a syntax tree that is a character class: the empty expression, the dot,
/// a literal, or a Unicode, Perl or bracketed class. Inside brackets a negation applies to the
/// set it stands before. `None` for any other syntax tree.
pub fn class_tree_of(ast: &Ast) -> (r: Option<ClassTree>) {
    match ast_node(ast) {
        AstNode::Empty => return Some(ClassTree::Empty),
        AstNode::Dot => return Some(ClassTree::Dot),
        _ => {},
    }
    match ast_class(ast) {
        Some(ClassNode::Literal(lit, verbatim)) => Some(ClassTree::Literal(lit, verbatim)),
        Some(ClassNode::Unicode(u)) => {
            let (kind, neg) = unicode_class(&u);
            Some(ClassTree::Unicode(kind, neg))
        },
        Some(ClassNode::Perl(p)) => {
            let (kind, neg) = perl_class(&p);
            Some(ClassTree::Perl(kind, neg))
        },
        Some(ClassNode::Bracketed(neg, set)) => Some(set_tree(&set, neg, usize::MAX)),
        _ => None,
    }
}

/// The matcher of a character class written as a syntax tree: that of its class tree (see
/// [class_tree_of] and [tree_matcher]), and an error for a syntax tree that is no class.
pub fn class_matcher(ast: &Ast) -> (r: Result<CharMatcher, ScnrError>)
    ensures
        r matches Ok(m) ==> exists|t: ClassTree| class_refusal(t) is None
            && forall|c: char| matcher_has(m, c) == #[trigger] class_has(t, c),
        r matches Err(e) ==> (exists|t: ClassTree| #[trigger] class_refusal(t) == Some(kind_text(*e.source)))
            || *e.source is UnsupportedFeature,
{
    match class_tree_of(ast) {
        Some(t) => tree_matcher(&t),
        None => {
            let mut t: Vec<char> = Vec::new();
            push_str(&mut t, "Character class ");
            push_chars(&mut t, &str_chars(ast_text(ast).as_str()));
            Err(unsupported(t))
        },
    }
}

} // verus!
