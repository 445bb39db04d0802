//! Tests of the NFAs built from regular expression trees: the words they read, and the errors
//! of refused parts.
use scnr::char_matcher::CharMatcher;
use scnr::character_class::{CharacterClassRegistry, ClassKey, ClassKeyKind};
use scnr::errors::unsupported;
use scnr::nfa::Nfa;
use scnr::regex_ast::{parse_regex_syntax, RepetitionOp};
use scnr::regex_tree::{RegexNode, RegexTree};
use scnr::{Match, ScannerBuilder};

/// Runs the NFA on the word: the set of states reached, closed under epsilon transitions,
/// contains the end state at the end of the word.
fn reads(nfa: &Nfa, registry: &CharacterClassRegistry, word: &str) -> bool {
    let mut current: Vec<usize> = nfa.epsilon_closure(nfa.start_state());
    for c in word.chars() {
        let mut next: Vec<usize> = Vec::new();
        for s in &current {
            for t in nfa.states()[*s].transitions() {
                if registry.matches(t.char_class(), c) {
                    for u in nfa.epsilon_closure(t.target_state()) {
                        if !next.contains(&u) {
                            next.push(u);
                        }
                    }
                }
            }
        }
        current = next;
    }
    current.contains(&nfa.end_state())
}

fn tree(text: &str, node: RegexNode) -> RegexTree {
    RegexTree { text: text.to_string(), node }
}

fn char_tree(c: char) -> RegexTree {
    let key = ClassKey { kind: ClassKeyKind::Literal, c, text: "Verbatim".chars().collect() };
    tree(&c.to_string(), RegexNode::Class(key, CharMatcher::Ranges(vec![(c, c)])))
}

fn repeat(sub: RegexTree, op: RepetitionOp) -> RegexTree {
    tree("r", RegexNode::Repetition(Box::new(sub), op, true))
}

fn build(t: RegexTree) -> (Nfa, CharacterClassRegistry) {
    let mut registry = CharacterClassRegistry::new();
    let nfa = Nfa::try_from_tree(t, &mut registry).unwrap();
    (nfa, registry)
}

fn build_pattern(pattern: &str) -> (Nfa, CharacterClassRegistry) {
    let mut registry = CharacterClassRegistry::new();
    let nfa = Nfa::try_from_ast(parse_regex_syntax(pattern).unwrap(), &mut registry).unwrap();
    (nfa, registry)
}

#[test]
fn tree_empty_reads_the_empty_word() {
    let (nfa, registry) = build(tree("", RegexNode::Empty));
    assert!(nfa.is_empty());
    assert!(reads(&nfa, &registry, ""));
    assert!(!reads(&nfa, &registry, "a"));
}

#[test]
fn tree_class_reads_one_character() {
    let (nfa, registry) = build(char_tree('a'));
    assert_eq!(nfa.states().len(), 2);
    assert_eq!(nfa.pattern(), "a");
    assert_eq!(registry.len(), 1);
    assert!(reads(&nfa, &registry, "a"));
    assert!(!reads(&nfa, &registry, ""));
    assert!(!reads(&nfa, &registry, "b"));
    assert!(!reads(&nfa, &registry, "aa"));
}

#[test]
fn tree_concat_reads_one_word_after_the_other() {
    let t = tree("ab*", RegexNode::Concat(vec![char_tree('a'), repeat(char_tree('b'), RepetitionOp::ZeroOrMore)]));
    let (nfa, registry) = build(t);
    assert_eq!(nfa.pattern(), "ab*");
    assert!(reads(&nfa, &registry, "a"));
    assert!(reads(&nfa, &registry, "abbb"));
    assert!(!reads(&nfa, &registry, "b"));
    assert!(!reads(&nfa, &registry, "aba"));
}

#[test]
fn tree_alternation_reads_either() {
    let t = tree("a|bc", RegexNode::Alternation(vec![
        char_tree('a'),
        tree("bc", RegexNode::Concat(vec![char_tree('b'), char_tree('c')])),
    ]));
    let (nfa, registry) = build(t);
    assert!(reads(&nfa, &registry, "a"));
    assert!(reads(&nfa, &registry, "bc"));
    assert!(!reads(&nfa, &registry, "b"));
    assert!(!reads(&nfa, &registry, ""));
}

#[test]
fn tree_alternation_after_an_empty_first_alternative() {
    // The empty first alternative gives the empty NFA, which the next alternative replaces.
    let t = tree("|a", RegexNode::Alternation(vec![tree("", RegexNode::Empty), char_tree('a')]));
    let (nfa, registry) = build(t);
    assert!(reads(&nfa, &registry, "a"));
    assert!(!reads(&nfa, &registry, ""));
    // An empty alternative after the first one is kept.
    let t = tree("a|", RegexNode::Alternation(vec![char_tree('a'), tree("", RegexNode::Empty)]));
    let (nfa, registry) = build(t);
    assert!(reads(&nfa, &registry, "a"));
    assert!(reads(&nfa, &registry, ""));
}

#[test]
fn tree_repetitions_read_counted_words() {
    let (nfa, registry) = build(repeat(char_tree('a'), RepetitionOp::ZeroOrOne));
    assert!(reads(&nfa, &registry, ""));
    assert!(reads(&nfa, &registry, "a"));
    assert!(!reads(&nfa, &registry, "aa"));
    let (nfa, registry) = build(repeat(char_tree('a'), RepetitionOp::OneOrMore));
    assert!(!reads(&nfa, &registry, ""));
    assert!(reads(&nfa, &registry, "aaaa"));
    let (nfa, registry) = build(repeat(char_tree('a'), RepetitionOp::Exactly(3)));
    assert!(reads(&nfa, &registry, "aaa"));
    assert!(!reads(&nfa, &registry, "aa"));
    assert!(!reads(&nfa, &registry, "aaaa"));
    let (nfa, registry) = build(repeat(char_tree('a'), RepetitionOp::AtLeast(2)));
    assert!(!reads(&nfa, &registry, "a"));
    assert!(reads(&nfa, &registry, "aa"));
    assert!(reads(&nfa, &registry, "aaaaa"));
    let (nfa, registry) = build(repeat(char_tree('a'), RepetitionOp::Bounded(2, 3)));
    assert!(!reads(&nfa, &registry, "a"));
    assert!(reads(&nfa, &registry, "aa"));
    assert!(reads(&nfa, &registry, "aaa"));
    assert!(!reads(&nfa, &registry, "aaaa"));
}

#[test]
fn tree_bounded_repetition_below_its_lower_bound() {
    // An upper bound below the lower bound repeats exactly the lower bound.
    let (nfa, registry) = build(repeat(char_tree('a'), RepetitionOp::Bounded(3, 1)));
    assert!(!reads(&nfa, &registry, "a"));
    assert!(reads(&nfa, &registry, "aaa"));
    assert!(!reads(&nfa, &registry, "aaaa"));
}

#[test]
fn tree_repetition_of_nothing_is_the_empty_nfa() {
    let (nfa, registry) = build(repeat(char_tree('a'), RepetitionOp::Exactly(0)));
    assert!(nfa.is_empty());
    assert_eq!(nfa.pattern(), "r");
    assert!(reads(&nfa, &registry, ""));
    // `?` keeps the text of the repeated tree.
    let (nfa, _) = build(repeat(char_tree('a'), RepetitionOp::ZeroOrOne));
    assert_eq!(nfa.pattern(), "a");
}

#[test]
fn tree_refused_part_gives_its_error() {
    let refused = tree("(?i)", RegexNode::Refused(unsupported("flags".chars().collect())));
    let t = tree("a(?i)", RegexNode::Concat(vec![char_tree('a'), refused]));
    let mut registry = CharacterClassRegistry::new();
    let e = Nfa::try_from_tree(t, &mut registry).unwrap_err();
    assert_eq!(e.to_string(), "Unsupported regex feature: flags");
    // The classes before the refused part were registered.
    assert_eq!(registry.len(), 1);
}

#[test]
fn tree_non_greedy_repetition_is_refused() {
    let t = tree("a*?", RegexNode::Repetition(Box::new(char_tree('a')), RepetitionOp::ZeroOrMore, false));
    let mut registry = CharacterClassRegistry::new();
    let e = Nfa::try_from_tree(t, &mut registry).unwrap_err();
    assert_eq!(
        e.to_string(),
        "Unsupported regex feature: a*?: Non-greedy repetionions. Consider using different scanner modes instead."
    );
    // A refused part inside the repetition comes first.
    let inner = tree("\\b", RegexNode::Refused(unsupported("Assertion WordBoundary".chars().collect())));
    let t = tree("\\b*?", RegexNode::Repetition(Box::new(inner), RepetitionOp::ZeroOrMore, false));
    let e = Nfa::try_from_tree(t, &mut registry).unwrap_err();
    assert_eq!(e.to_string(), "Unsupported regex feature: Assertion WordBoundary");
}

#[test]
fn tree_classes_are_registered_once() {
    let t = tree("aba", RegexNode::Concat(vec![char_tree('a'), char_tree('b'), char_tree('a')]));
    let (nfa, registry) = build(t);
    assert_eq!(registry.len(), 2);
    assert!(reads(&nfa, &registry, "aba"));
    assert!(!reads(&nfa, &registry, "abb"));
}

#[test]
fn pattern_nfas_read_their_words() {
    let (nfa, registry) = build_pattern("(a|b)*c");
    assert!(reads(&nfa, &registry, "c"));
    assert!(reads(&nfa, &registry, "abbac"));
    assert!(!reads(&nfa, &registry, "abba"));
    let (nfa, registry) = build_pattern("[a-c]{2,3}");
    assert!(reads(&nfa, &registry, "ab"));
    assert!(reads(&nfa, &registry, "cab"));
    assert!(!reads(&nfa, &registry, "c"));
    assert!(!reads(&nfa, &registry, "abca"));
    assert!(!reads(&nfa, &registry, "ad"));
    let (nfa, registry) = build_pattern(r"\d+\.\d*");
    assert!(reads(&nfa, &registry, "12."));
    assert!(reads(&nfa, &registry, "1.25"));
    assert!(!reads(&nfa, &registry, ".5"));
}

#[test]
fn pattern_with_empty_first_alternative() {
    // `(|a)b` reads `ab` but not `b`: the empty alternative is replaced by the next one.
    let (nfa, registry) = build_pattern("(|a)b");
    assert!(reads(&nfa, &registry, "ab"));
    assert!(!reads(&nfa, &registry, "b"));
    let (nfa, registry) = build_pattern("(a|)b");
    assert!(reads(&nfa, &registry, "ab"));
    assert!(reads(&nfa, &registry, "b"));
}

#[test]
fn scanner_matches_the_words_of_the_pattern_trees() {
    let scanner = ScannerBuilder::new().add_patterns(&["(|a)b", "x{2,3}"]).build().unwrap();
    let matches: Vec<Match> = scanner.find_iter("b ab xxxx").collect();
    let found: Vec<(usize, usize, usize)> =
        matches.iter().map(|m| (m.token_type(), m.start(), m.end())).collect();
    // `b` alone is no word of `(|a)b`; `xxxx` is read as `xxx` and leaves a single `x` behind.
    assert_eq!(found, vec![(0, 2, 4), (1, 5, 8)]);
}
