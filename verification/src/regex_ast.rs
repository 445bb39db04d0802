//! Access to the abstract syntax trees of regular expressions as parsed by `regex_syntax`.
//!
//! The syntax tree is an opaque value of `regex_syntax`; the functions here hand out one node at
//! a time as plain values of this crate, so that the construction of automata from the tree is
//! verified code.
use vstd::prelude::*;
use crate::errors::{ScnrError, ScnrErrorKind};
use crate::text::{push_str, string_from_chars};
use regex_syntax::ast::Ast;
use regex_syntax::ast::RepetitionKind as K;
use regex_syntax::ast::RepetitionRange as R;
use regex_syntax::ast::{ClassAscii, ClassPerl, ClassSet, ClassSetItem, ClassUnicode, LiteralKind};
use regex_syntax::ast::ClassAsciiKind as A;
use regex_syntax::ast::ClassPerlKind as P;
use regex_syntax::ast::ClassSetBinaryOpKind as B;
use regex_syntax::ast::ClassUnicodeKind as U;

verus! {

/// The syntax tree of a regular expression.
#[verifier::external_type_specification]
#[verifier::external_body]
pub struct ExAst(regex_syntax::ast::Ast);

/// An error of the regular expression parser.
#[verifier::external_type_specification]
#[verifier::external_body]
pub struct ExAstError(regex_syntax::ast::Error);

/// A class set of a bracketed class.
#[verifier::external_type_specification]
#[verifier::external_body]
pub struct ExClassSet(regex_syntax::ast::ClassSet);

/// An item of a class set.
#[verifier::external_type_specification]
#[verifier::external_body]
pub struct ExClassSetItem(regex_syntax::ast::ClassSetItem);

/// A POSIX class such as `[:alpha:]`.
#[verifier::external_type_specification]
#[verifier::external_body]
pub struct ExClassAscii(regex_syntax::ast::ClassAscii);

/// A Unicode class such as `\pL`.
#[verifier::external_type_specification]
#[verifier::external_body]
pub struct ExClassUnicode(regex_syntax::ast::ClassUnicode);

/// A Perl class such as `\d`.
#[verifier::external_type_specification]
#[verifier::external_body]
pub struct ExClassPerl(regex_syntax::ast::ClassPerl);

/// The kind of a POSIX class.
#[derive(Debug, Clone, Copy, PartialEq, Eq, Structural)]
pub enum AsciiClass {
    /// `[:alnum:]`
    Alnum,
    /// `[:alpha:]`
    Alpha,
    /// `[:ascii:]`
    Ascii,
    /// `[:blank:]`
    Blank,
    /// `[:cntrl:]`
    Cntrl,
    /// `[:digit:]`
    Digit,
    /// `[:graph:]`
    Graph,
    /// `[:lower:]`
    Lower,
    /// `[:print:]`
    Print,
    /// `[:punct:]`
    Punct,
    /// `[:space:]`
    Space,
    /// `[:upper:]`
    Upper,
    /// `[:word:]`
    Word,
    /// `[:xdigit:]`
    Xdigit,
}

/// The kind of a Perl class.
#[derive(Debug, Clone, Copy, PartialEq, Eq, Structural)]
pub enum PerlClass {
    /// `\d`
    Digit,
    /// `\s`
    Space,
    /// `\w`
    Word,
}

/// The kind of a Unicode class.
#[derive(Debug, Clone)]
pub enum UnicodeClass {
    /// A one letter class such as `\pL`.
    OneLetter(char),
    /// A named class such as `\p{Alphabetic}`.
    Named(String),
    /// A class given by a property and a value such as `\p{Script=Greek}`.
    NamedValue(String, String),
}

/// A binary operation on class sets.
#[derive(Debug, Clone, Copy, PartialEq, Eq, Structural)]
pub enum SetOperation {
    /// `&&`
    Intersection,
    /// `--`
    Difference,
    /// `~~`
    SymmetricDifference,
}

/// The top of a class set.
pub enum ClassSetNode {
    /// A single item.
    Item(ClassSetItem),
    /// A binary operation and its two operands.
    BinaryOp(SetOperation, ClassSet, ClassSet),
}

/// One node of a character class with its direct sub-trees.
pub enum ClassNode {
    /// The empty item.
    Empty,
    /// A literal character, and whether it is written verbatim.
    Literal(char, bool),
    /// An inclusive range of characters.
    Range(char, char),
    /// A POSIX class.
    Ascii(ClassAscii),
    /// A Unicode class.
    Unicode(ClassUnicode),
    /// A Perl class.
    Perl(ClassPerl),
    /// A bracketed class: whether it is negated, and its class set.
    Bracketed(bool, ClassSet),
    /// A union of items.
    Union(Vec<ClassSetItem>),
}

/// The repetition operator of a repetition node.
#[derive(Debug, Clone, Copy, PartialEq, Eq, Structural)]
pub enum RepetitionOp {
    /// `?`
    ZeroOrOne,
    /// `*`
    ZeroOrMore,
    /// `+`
    OneOrMore,
    /// `{n}`
    Exactly(u32),
    /// `{n,}`
    AtLeast(u32),
    /// `{m,n}`
    Bounded(u32, u32),
}

/// One node of a syntax tree with its direct sub-trees.
pub enum AstNode {
    /// The empty regular expression.
    Empty,
    /// A flag setting such as `(?i)`.
    Flags,
    /// A literal character.
    Literal(char),
    /// The dot.
    Dot,
    /// An assertion such as `^`.
    Assertion,
    /// A bracketed, Perl or Unicode character class.
    Class,
    /// A repetition: whether it is greedy, and the repeated tree.
    Repetition(bool, Ast),
    /// A group and the grouped tree.
    Group(Ast),
    /// An alternation of trees.
    Alternation(Vec<Ast>),
    /// A concatenation of trees.
    Concat(Vec<Ast>),
}

/// Names what `regex_syntax`'s parser at its default settings makes of a regular expression:
/// `None` where it parses it, and where it does not, the text of the parse error as the error's
/// `Display` implementation renders it.
pub uninterp spec fn parse_outcome(pattern: Seq<char>) -> Option<Seq<char>>;

/// Parses a regular expression into its syntax tree with `regex_syntax`'s
/// `ast::parse::Parser::parse` at its default settings; a parse error is rendered by its
/// `Display` implementation. Whether the parse succeeds, and the error text, are those that
/// [parse_outcome] names; nothing is stated of the tree.
#[verifier::external_body]
pub(crate) fn parse_ast(pattern: &str) -> (r: std::result::Result<Ast, String>)
    ensures
        match r {
            Ok(_) => parse_outcome(pattern@) is None,
            Err(t) => parse_outcome(pattern@) == Some(t@),
        },
{
    match regex_syntax::ast::parse::Parser::new().parse(pattern) {
        Ok(ast) => Ok(ast),
        Err(e) => Err(e.to_string()),
    }
}

/// The regular expression text of a syntax tree, as rendered by `Ast`'s `Display`
/// implementation.
#[verifier::external_body]
pub(crate) fn ast_text(ast: &Ast) -> String {
    ast.to_string()
}

/// The top node of a syntax tree, telling the variants of `Ast` apart and cloning the sub-trees.
#[verifier::external_body]
pub(crate) fn ast_node(ast: &Ast) -> AstNode {
    match ast {
        Ast::Empty(_) => AstNode::Empty,
        Ast::Flags(_) => AstNode::Flags,
        Ast::Literal(l) => AstNode::Literal(l.c),
        Ast::Dot(_) => AstNode::Dot,
        Ast::Assertion(_) => AstNode::Assertion,
        Ast::ClassUnicode(_) | Ast::ClassPerl(_) | Ast::ClassBracketed(_) => AstNode::Class,
        Ast::Repetition(r) => AstNode::Repetition(r.greedy, (*r.ast).clone()),
        Ast::Group(g) => AstNode::Group((*g.ast).clone()),
        Ast::Alternation(a) => AstNode::Alternation(a.asts.clone()),
        Ast::Concat(c) => AstNode::Concat(c.asts.clone()),
    }
}

/// The `Debug` rendering of the flag items of a flags node, of the literal kind of a literal
/// and of the assertion kind of an assertion; empty for any other node.
#[verifier::external_body]
pub(crate) fn ast_kind_text(ast: &Ast) -> String {
    match ast {
        Ast::Flags(f) => format!("{:?}", f.flags.items),
        Ast::Literal(l) => format!("{:?}", l.kind),
        Ast::Assertion(a) => format!("{:?}", a.kind),
        _ => String::new(),
    }
}

/// The operator of a repetition node, `None` for any other node.
#[verifier::external_body]
pub(crate) fn ast_repetition_op(ast: &Ast) -> Option<RepetitionOp> {
    match ast {
        Ast::Repetition(r) => Some(match r.op.kind {
            K::ZeroOrOne => RepetitionOp::ZeroOrOne,
            K::ZeroOrMore => RepetitionOp::ZeroOrMore,
            K::OneOrMore => RepetitionOp::OneOrMore,
            K::Range(R::Exactly(n)) => RepetitionOp::Exactly(n),
            K::Range(R::AtLeast(n)) => RepetitionOp::AtLeast(n),
            K::Range(R::Bounded(m, n)) => RepetitionOp::Bounded(m, n),
        }),
        _ => None,
    }
}

/// For a non-capturing group node: for each of its flag items whether it is a flag (and not a
/// negation), with the `Debug` rendering of the items. `None` for any other node.
#[verifier::external_body]
pub(crate) fn ast_group_flags(ast: &Ast) -> Option<(Vec<bool>, String)> {
    match ast {
        Ast::Group(g) => g.flags().map(|f| {
            (f.items.iter().map(|i| !i.kind.is_negation()).collect(), format!("{:?}", f.items))
        }),
        _ => None,
    }
}

/// The class node of a syntax tree that is a literal or a Unicode, Perl or bracketed class;
/// `None` for any other node.
#[verifier::external_body]
pub(crate) fn ast_class(ast: &Ast) -> Option<ClassNode> {
    match ast {
        Ast::Literal(l) => Some(ClassNode::Literal(l.c, matches!(l.kind, LiteralKind::Verbatim))),
        Ast::ClassUnicode(u) => Some(ClassNode::Unicode((**u).clone())),
        Ast::ClassPerl(p) => Some(ClassNode::Perl((**p).clone())),
        Ast::ClassBracketed(b) => Some(ClassNode::Bracketed(b.negated, b.kind.clone())),
        _ => None,
    }
}

/// The top of a class set: an item, or a binary operation with its two operands.
#[verifier::external_body]
pub(crate) fn class_set_node(set: &ClassSet) -> ClassSetNode {
    match set {
        ClassSet::Item(i) => ClassSetNode::Item(i.clone()),
        ClassSet::BinaryOp(b) => ClassSetNode::BinaryOp(
            match b.kind {
                B::Intersection => SetOperation::Intersection,
                B::Difference => SetOperation::Difference,
                B::SymmetricDifference => SetOperation::SymmetricDifference,
            },
            (*b.lhs).clone(),
            (*b.rhs).clone(),
        ),
    }
}

/// The node of a class set item with its direct sub-trees.
#[verifier::external_body]
pub(crate) fn class_item_node(item: &ClassSetItem) -> ClassNode {
    match item {
        ClassSetItem::Empty(_) => ClassNode::Empty,
        ClassSetItem::Literal(l) => ClassNode::Literal(l.c, matches!(l.kind, LiteralKind::Verbatim)),
        ClassSetItem::Range(r) => ClassNode::Range(r.start.c, r.end.c),
        ClassSetItem::Ascii(a) => ClassNode::Ascii(a.clone()),
        ClassSetItem::Unicode(u) => ClassNode::Unicode(u.clone()),
        ClassSetItem::Perl(p) => ClassNode::Perl(p.clone()),
        ClassSetItem::Bracketed(b) => ClassNode::Bracketed(b.negated, b.kind.clone()),
        ClassSetItem::Union(u) => ClassNode::Union(u.items.clone()),
    }
}

/// The kind of a POSIX class and whether it is negated.
#[verifier::external_body]
pub(crate) fn ascii_class(a: &ClassAscii) -> (AsciiClass, bool) {
    (match a.kind {
        A::Alnum => AsciiClass::Alnum, A::Alpha => AsciiClass::Alpha, A::Ascii => AsciiClass::Ascii,
        A::Blank => AsciiClass::Blank, A::Cntrl => AsciiClass::Cntrl, A::Digit => AsciiClass::Digit,
        A::Graph => AsciiClass::Graph, A::Lower => AsciiClass::Lower, A::Print => AsciiClass::Print,
        A::Punct => AsciiClass::Punct, A::Space => AsciiClass::Space, A::Upper => AsciiClass::Upper,
        A::Word => AsciiClass::Word, A::Xdigit => AsciiClass::Xdigit,
    }, a.negated)
}

/// The kind of a Perl class and whether it is negated.
#[verifier::external_body]
pub(crate) fn perl_class(p: &ClassPerl) -> (PerlClass, bool) {
    (match p.kind {
        P::Digit => PerlClass::Digit,
        P::Space => PerlClass::Space,
        P::Word => PerlClass::Word,
    }, p.negated)
}

/// The kind of a Unicode class and whether it is negated, as `ClassUnicode::is_negated` tells.
#[verifier::external_body]
pub(crate) fn unicode_class(u: &ClassUnicode) -> (UnicodeClass, bool) {
    (match &u.kind {
        U::OneLetter(c) => UnicodeClass::OneLetter(*c),
        U::Named(n) => UnicodeClass::Named(n.clone()),
        U::NamedValue { name, value, .. } => UnicodeClass::NamedValue(name.clone(), value.clone()),
    }, u.is_negated())
}

/// Parses a regular expression into its syntax tree. A pattern that `regex_syntax` cannot parse
/// gives a syntax error with the parser's error text and the context `!`.
pub fn parse_regex_syntax(input: &str) -> (r: Result<Ast, ScnrError>)
    ensures
        r is Ok <==> parse_outcome(input@) is None,
        r matches Err(e) ==> (*e.source matches ScnrErrorKind::RegexSyntaxError(t, ctx) && ctx@ == "!"@
            && parse_outcome(input@) == Some(t@)),
{
    match parse_ast(input) {
        Ok(ast) => Ok(ast),
        Err(text) => {
            let mut ctx: Vec<char> = Vec::new();
            push_str(&mut ctx, "!");
            Err(ScnrError::new(ScnrErrorKind::RegexSyntaxError(text, string_from_chars(&ctx))))
        },
    }
}

} // verus!
