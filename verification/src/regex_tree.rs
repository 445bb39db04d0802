//! Regular expressions as trees of plain values, the words they stand for, and their
//! conversion from `regex_syntax`'s syntax trees.
use vstd::prelude::*;
use crate::char_matcher::{class_matcher, dot_matcher, is_line_end, matcher_has, range_matcher, CharMatcher};
use crate::character_class::{ClassKey, ClassKeyKind, KeyView};
use crate::errors::{kind_text, too_deep, unsupported, ScnrError};
use crate::nfa::literal_class_key;
use crate::regex_ast::{ast_group_flags, ast_kind_text, ast_node, ast_repetition_op, ast_text, AstNode, RepetitionOp};
use crate::text::{push_chars, push_str, str_chars};
use regex_syntax::ast::Ast;

verus! {

/// A regular expression as a tree: its text and its top node.
#[derive(Debug)]
pub struct RegexTree {
    /// The text of the expression.
    pub text: String,
    /// The top node.
    pub node: RegexNode,
}

/// The top node of a regular expression tree.
#[derive(Debug)]
pub enum RegexNode {
    /// The empty expression.
    Empty,
    /// One character of a class: the key the class is registered under, and the matcher
    /// registered with a new key.
    Class(ClassKey, CharMatcher),
    /// A repetition of a tree: the operator, and whether the repetition is greedy.
    Repetition(Box<RegexTree>, RepetitionOp, bool),
    /// Alternatives.
    Alternation(Vec<RegexTree>),
    /// A sequence of trees.
    Concat(Vec<RegexTree>),
    /// A part of the expression that the scanner does not support, with the error it gives.
    Refused(ScnrError),
}

/// The matcher registered under `key` contains `c`.
pub open spec fn registered_has(keys: Seq<KeyView>, cls: Seq<CharMatcher>, key: KeyView, c: char) -> bool {
    exists|i: int| 0 <= i < keys.len() && i < cls.len() && keys[i] == key && #[trigger] matcher_has(cls[i], c)
}

/// The operator allows `n` repetitions. A bounded repetition whose upper bound is below its
/// lower bound repeats exactly the lower bound.
pub open spec fn count_allowed(op: RepetitionOp, n: nat) -> bool {
    match op {
        RepetitionOp::ZeroOrOne => n <= 1,
        RepetitionOp::ZeroOrMore => true,
        RepetitionOp::OneOrMore => n >= 1,
        RepetitionOp::Exactly(c) => n == c,
        RepetitionOp::AtLeast(c) => n >= c,
        RepetitionOp::Bounded(least, most) => least <= n && (n <= most || n == least),
    }
}

/// The words the tree reads, its classes standing for the matchers registered under their
/// keys in `keys` and `cls`.
///
/// Alternatives follow the construction of their NFA: as long as the alternatives so far give
/// the empty NFA (see [builds_empty_nfa]), the next alternative replaces them.
pub open spec fn tree_language(t: RegexTree, keys: Seq<KeyView>, cls: Seq<CharMatcher>) -> Set<Seq<char>>
    decreases t,
{
    match t.node {
        RegexNode::Empty => Set::new(|w: Seq<char>| w.len() == 0),
        RegexNode::Class(key, _) => Set::new(|w: Seq<char>| w.len() == 1 && registered_has(keys, cls, key@, w[0])),
        RegexNode::Repetition(sub, op, _) => {
            let words = tree_language(*sub, keys, cls);
            Set::new(|w: Seq<char>| exists|ws: Seq<Seq<char>>|
                count_allowed(op, ws.len()) && #[trigger] ws.flatten() == w
                    && forall|j: int| 0 <= j < ws.len() ==> words.contains(#[trigger] ws[j]))
        },
        RegexNode::Alternation(alts) => alternatives_language(alts@, keys, cls),
        RegexNode::Concat(parts) => sequence_language(parts@, keys, cls),
        RegexNode::Refused(_) => Set::empty(),
    }
}

/// The words of the alternatives (see [tree_language]).
pub open spec fn alternatives_language(alts: Seq<RegexTree>, keys: Seq<KeyView>, cls: Seq<CharMatcher>) -> Set<Seq<char>>
    decreases alts,
{
    if alts.len() == 0 {
        Set::new(|w: Seq<char>| w.len() == 0)
    } else if all_build_empty_nfa(alts.drop_last()) {
        tree_language(alts.last(), keys, cls)
    } else {
        alternatives_language(alts.drop_last(), keys, cls).union(tree_language(alts.last(), keys, cls))
    }
}

/// The words of the trees one after the other.
pub open spec fn sequence_language(parts: Seq<RegexTree>, keys: Seq<KeyView>, cls: Seq<CharMatcher>) -> Set<Seq<char>>
    decreases parts,
{
    if parts.len() == 0 {
        Set::new(|w: Seq<char>| w.len() == 0)
    } else {
        let front = sequence_language(parts.drop_last(), keys, cls);
        let back = tree_language(parts.last(), keys, cls);
        Set::new(|w: Seq<char>| exists|w1: Seq<char>, w2: Seq<char>|
            w == w1 + w2 && #[trigger] front.contains(w1) && #[trigger] back.contains(w2))
    }
}

/// The tree reads `w` (see [tree_language]).
pub open spec fn tree_accepts(t: RegexTree, keys: Seq<KeyView>, cls: Seq<CharMatcher>, w: Seq<char>) -> bool {
    tree_language(t, keys, cls).contains(w)
}

/// The alternatives read `w` (see [tree_language]).
pub open spec fn alternatives_accept(alts: Seq<RegexTree>, keys: Seq<KeyView>, cls: Seq<CharMatcher>, w: Seq<char>) -> bool {
    alternatives_language(alts, keys, cls).contains(w)
}

/// The trees one after the other read `w`.
pub open spec fn sequence_accepts(parts: Seq<RegexTree>, keys: Seq<KeyView>, cls: Seq<CharMatcher>, w: Seq<char>) -> bool {
    sequence_language(parts, keys, cls).contains(w)
}

/// The construction of the tree gives the empty NFA, one state without transitions: the empty
/// expression, a repetition of nothing, and sequences and alternatives made only of such trees.
pub open spec fn builds_empty_nfa(t: RegexTree) -> bool
    decreases t,
{
    match t.node {
        RegexNode::Empty => true,
        RegexNode::Repetition(sub, op, _) => match op {
            RepetitionOp::Exactly(c) => c == 0 || builds_empty_nfa(*sub),
            RepetitionOp::Bounded(least, most) => (least == 0 || builds_empty_nfa(*sub)) && most <= least,
            _ => false,
        },
        RegexNode::Alternation(alts) => all_build_empty_nfa(alts@),
        RegexNode::Concat(parts) => all_build_empty_nfa(parts@),
        _ => false,
    }
}

/// Every tree of the sequence gives the empty NFA.
pub open spec fn all_build_empty_nfa(ts: Seq<RegexTree>) -> bool
    decreases ts,
{
    if ts.len() == 0 {
        true
    } else {
        all_build_empty_nfa(ts.drop_last()) && builds_empty_nfa(ts.last())
    }
}

/// Trees that all give the empty NFA start with one that does.
proof fn lemma_all_build_empty_first(ts: Seq<RegexTree>)
    requires
        ts.len() >= 1,
        all_build_empty_nfa(ts),
    ensures
        builds_empty_nfa(ts[0]),
    decreases ts.len(),
{
    if ts.len() > 1 {
        assert(ts.drop_last()[0] == ts[0]);
        lemma_all_build_empty_first(ts.drop_last());
    }
}

/// Alternatives read the words that one of them reads, where the first alternative does not
/// give the empty NFA. (Where it does, the second alternative replaces it: the alternatives of
/// `(|a)` read `a` alone.)
pub proof fn lemma_alternatives_union(alts: Seq<RegexTree>, keys: Seq<KeyView>, cls: Seq<CharMatcher>, w: Seq<char>)
    requires
        alts.len() >= 1,
        !builds_empty_nfa(alts[0]),
    ensures
        alternatives_accept(alts, keys, cls, w) <==> exists|i: int| 0 <= i < alts.len() && tree_accepts(#[trigger] alts[i], keys, cls, w),
    decreases alts.len(),
{
    let init = alts.drop_last();
    if alts.len() == 1 {
        assert(init.len() == 0);
        assert(alts.last() == alts[0]);
    } else {
        assert(init[0] == alts[0]);
        if all_build_empty_nfa(init) {
            lemma_all_build_empty_first(init);
        }
        lemma_alternatives_union(init, keys, cls, w);
        if exists|i: int| 0 <= i < alts.len() && tree_accepts(#[trigger] alts[i], keys, cls, w) {
            let i = choose|i: int| 0 <= i < alts.len() && tree_accepts(#[trigger] alts[i], keys, cls, w);
            if i < alts.len() - 1 {
                assert(init[i] == alts[i]);
            }
        }
        if exists|i: int| 0 <= i < init.len() && tree_accepts(#[trigger] init[i], keys, cls, w) {
            let i = choose|i: int| 0 <= i < init.len() && tree_accepts(#[trigger] init[i], keys, cls, w);
            assert(alts[i] == init[i]);
        }
        assert(alts.last() == alts[alts.len() - 1]);
    }
}

/// The text of the error for a repetition that is not greedy.
pub open spec fn non_greedy_text(text: Seq<char>) -> Seq<char> {
    "Unsupported regex feature: "@ + text + ": Non-greedy repetionions. Consider using different scanner modes instead."@
}

/// The text of the first error met in the construction of the NFA of the tree, depth first and
/// left to right: a refused part, or a repetition that is not greedy once its tree is built.
pub open spec fn tree_refusal(t: RegexTree) -> Option<Seq<char>>
    decreases t,
{
    match t.node {
        RegexNode::Repetition(sub, _, greedy) => match tree_refusal(*sub) {
            Some(e) => Some(e),
            None => if greedy { None } else { Some(non_greedy_text(t.text@)) },
        },
        RegexNode::Alternation(alts) => sequence_refusal(alts@),
        RegexNode::Concat(parts) => sequence_refusal(parts@),
        RegexNode::Refused(e) => Some(kind_text(*e.source)),
        _ => None,
    }
}

/// The first error met in the trees of the sequence.
pub open spec fn sequence_refusal(ts: Seq<RegexTree>) -> Option<Seq<char>>
    decreases ts,
{
    if ts.len() == 0 {
        None
    } else {
        match sequence_refusal(ts.drop_last()) {
            Some(e) => Some(e),
            None => tree_refusal(ts.last()),
        }
    }
}

/// The text the NFA of the tree keeps as its pattern: a repetition by `?`, `*` or `+` keeps the
/// text of the repeated tree.
pub open spec fn built_text(t: RegexTree) -> Seq<char>
    decreases t,
{
    match t.node {
        RegexNode::Repetition(sub, op, _) => match op {
            RepetitionOp::ZeroOrOne | RepetitionOp::ZeroOrMore | RepetitionOp::OneOrMore => built_text(*sub),
            _ => t.text@,
        },
        _ => t.text@,
    }
}

/// The class of a class node matches as its key says: a literal key exactly its character, the
/// dot key every character but a line end, and a class key carries the text of its node. The
/// subtrees are keyed so too.
pub open spec fn classes_keyed(t: RegexTree) -> bool
    decreases t,
{
    match t.node {
        RegexNode::Class(key, m) => match key.kind {
            ClassKeyKind::Literal => forall|c: char| matcher_has(m, c) == (c == key.c),
            ClassKeyKind::Dot => forall|c: char| matcher_has(m, c) == !is_line_end(c),
            ClassKeyKind::Class => key.text@ == t.text@,
        },
        RegexNode::Repetition(sub, _, _) => classes_keyed(*sub),
        RegexNode::Alternation(alts) => all_classes_keyed(alts@),
        RegexNode::Concat(parts) => all_classes_keyed(parts@),
        _ => true,
    }
}

/// Every tree of the sequence has its classes keyed (see [classes_keyed]).
pub open spec fn all_classes_keyed(ts: Seq<RegexTree>) -> bool
    decreases ts,
{
    if ts.len() == 0 {
        true
    } else {
        all_classes_keyed(ts.drop_last()) && classes_keyed(ts.last())
    }
}

/// Converts a syntax tree, followed at most `depth` deep, into a regular expression tree.
/// What the scanner does not support becomes a refused part with its error: flag settings,
/// assertions, flags in non-capturing groups, classes whose characters cannot be computed, and
/// parts deeper than `depth`. A group stands for the tree it groups.
pub(crate) fn regex_tree(ast: &Ast, depth: usize) -> (r: RegexTree)
    ensures
        classes_keyed(r),
        depth == 0 ==> (r.node matches RegexNode::Refused(e) && *e.source is DfaError),
    decreases depth, 1nat,
{
    let text = ast_text(ast);
    if depth == 0 {
        return RegexTree { text, node: RegexNode::Refused(too_deep()) };
    }
    let node = match ast_node(ast) {
        AstNode::Empty => RegexNode::Empty,
        AstNode::Flags => RegexNode::Refused(unsupported(str_chars(ast_kind_text(ast).as_str()))),
        AstNode::Literal(c) => RegexNode::Class(literal_class_key(ast, c), range_matcher(c, c)),
        AstNode::Dot => RegexNode::Class(
            ClassKey { kind: ClassKeyKind::Dot, c: '\0', text: Vec::new() },
            dot_matcher(),
        ),
        AstNode::Assertion => {
            let mut v: Vec<char> = Vec::new();
            push_str(&mut v, "Assertion ");
            push_chars(&mut v, &str_chars(ast_kind_text(ast).as_str()));
            RegexNode::Refused(unsupported(v))
        },
        AstNode::Class => {
            let key = ClassKey { kind: ClassKeyKind::Class, c: '\0', text: str_chars(text.as_str()) };
            match class_matcher(ast) {
                Ok(matcher) => RegexNode::Class(key, matcher),
                Err(e) => RegexNode::Refused(e),
            }
        },
        AstNode::Repetition(greedy, sub) => {
            let sub_tree = regex_tree(&sub, depth - 1);
            // A repetition node always has an operator; one copy would stand for a missing one.
            let op = match ast_repetition_op(ast) {
                Some(op) => op,
                None => RepetitionOp::Exactly(1),
            };
            RegexNode::Repetition(Box::new(sub_tree), op, greedy)
        },
        AstNode::Group(sub) => {
            match ast_group_flags(ast) {
                Some((is_flag, items)) => {
                    let mut any_flag = false;
                    let mut i: usize = 0;
                    while i < is_flag.len()
                        invariant
                            i <= is_flag@.len(),
                        decreases is_flag@.len() - i,
                    {
                        if is_flag[i] {
                            any_flag = true;
                        }
                        i = i + 1;
                    }
                    if any_flag {
                        let mut v: Vec<char> = Vec::new();
                        push_chars(&mut v, &str_chars(items.as_str()));
                        push_str(&mut v, ": Flags in non-capturing group");
                        return RegexTree { text, node: RegexNode::Refused(unsupported(v)) };
                    }
                },
                None => {},
            }
            return regex_tree(&sub, depth - 1);
        },
        AstNode::Alternation(asts) => RegexNode::Alternation(regex_trees(&asts, depth)),
        AstNode::Concat(asts) => RegexNode::Concat(regex_trees(&asts, depth)),
    };
    RegexTree { text, node }
}

/// Converts each of the syntax trees, one level below `depth` (see [regex_tree]).
fn regex_trees(asts: &Vec<Ast>, depth: usize) -> (r: Vec<RegexTree>)
    requires
        depth > 0,
    ensures
        r@.len() == asts@.len(),
        all_classes_keyed(r@),
    decreases depth, 0nat,
{
    let mut trees: Vec<RegexTree> = Vec::new();
    let mut i: usize = 0;
    while i < asts.len()
        invariant
            i <= asts@.len(),
            trees@.len() == i,
            depth > 0,
            all_classes_keyed(trees@),
        decreases asts@.len() - i,
    {
        let t = regex_tree(&asts[i], depth - 1);
        let ghost before = trees@;
        trees.push(t);
        assert(trees@.drop_last() =~= before);
        i = i + 1;
    }
    trees
}

} // verus!
