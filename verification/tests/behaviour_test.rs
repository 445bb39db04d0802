//! Tests of the scanner's behaviour on concrete inputs: the crate's example, longest matches,
//! pattern priority, lookaheads, mode switches, peeking, error texts and small formulas.
use scnr::matching_state::{InnerMatchingState, MatchingState};
use scnr::{Lookahead, Match, Pattern, PeekResult, PositionProvider, ScannerBuilder, ScannerMode, Span};

fn spans(matches: &[Match]) -> Vec<(usize, usize, usize)> {
    matches
        .iter()
        .map(|m| (m.token_type(), m.start(), m.end()))
        .collect()
}

fn scan(patterns: Vec<Pattern>, input: &str) -> Vec<(usize, usize, usize)> {
    let scanner = ScannerBuilder::new()
        .add_scanner_mode(ScannerMode::new("INITIAL", patterns, vec![]))
        .build()
        .unwrap();
    spans(&scanner.find_iter(input).collect())
}

#[test]
fn crate_example() {
    let patterns: &[&str] = &[
        r";",
        r"0|[1-9][0-9]*",
        r"//.*(\r\n|\r|\n)",
        r"/\*([^*]|\*[^/])*\*/",
        r"[a-zA-Z_]\w*",
        r"=",
    ];
    let input = r#"
// This is a comment
a = 10;
b = 20;
/* This is a block comment
   that spans multiple lines */
c = a;
"#;
    let scanner = ScannerBuilder::new().add_patterns(patterns).build().unwrap();
    let matches = scanner.find_iter(input).collect();
    assert_eq!(
        spans(&matches),
        vec![
            (2, 1, 22),
            (4, 22, 23),
            (5, 24, 25),
            (1, 26, 28),
            (0, 28, 29),
            (4, 30, 31),
            (5, 32, 33),
            (1, 34, 36),
            (0, 36, 37),
            (3, 38, 96),
            (4, 97, 98),
            (5, 99, 100),
            (4, 101, 102),
            (0, 102, 103),
        ]
    );
}

#[test]
fn offset_is_the_end_of_the_last_match() {
    let patterns: &[&str] = &[r";", r"0|[1-9][0-9]*", r"//.*(\r\n|\r|\n)", r"[a-zA-Z_]\w*", r"="];
    let input = "\n// This is a comment\na = 10;\n";
    let scanner = ScannerBuilder::new().add_patterns(patterns).build().unwrap();
    let mut it = scanner.find_iter(input);
    assert_eq!(it.offset(), 0);
    let first = it.next_match().unwrap();
    assert_eq!((first.token_type(), first.start(), first.end()), (2, 1, 22));
    assert_eq!(it.offset(), 22);
    let second = it.next_match().unwrap();
    assert_eq!((second.start(), second.end()), (22, 23));
    assert_eq!(it.offset(), 23);
}

#[test]
fn advance_past_the_end_gives_the_length() {
    let scanner = ScannerBuilder::new().add_patterns(&["a"]).build().unwrap();
    let mut it = scanner.find_iter("abc");
    assert_eq!(it.advance_to(10), 3);
    assert_eq!(it.offset(), 3);
    assert!(it.next_match().is_none());
    let mut it = scanner.find_iter("abc");
    assert_eq!(it.advance_to(2), 1);
    assert_eq!(it.offset(), 2);
    assert_eq!(it.advance_to(0), 1);
}

#[test]
fn longest_match_wins() {
    let patterns = vec![
        Pattern::new("a".to_string(), 0),
        Pattern::new("ab".to_string(), 1),
        Pattern::new("[a-z]+".to_string(), 2),
    ];
    // "ab" is matched by two patterns at equal length: the earlier one wins.
    assert_eq!(scan(patterns, "abc ab"), vec![(2, 0, 3), (1, 4, 6)]);
}

#[test]
fn earlier_pattern_wins_a_tie() {
    let patterns = vec![
        Pattern::new("if".to_string(), 0),
        Pattern::new("[a-z]+".to_string(), 1),
    ];
    assert_eq!(scan(patterns, "if iff"), vec![(0, 0, 2), (1, 3, 6)]);
}

#[test]
fn unmatched_characters_are_skipped() {
    let patterns = vec![Pattern::new("[0-9]+".to_string(), 7)];
    assert_eq!(scan(patterns, "ab12c3"), vec![(7, 2, 4), (7, 5, 6)]);
}

#[test]
fn positive_lookahead() {
    let patterns = vec![
        Pattern::new("a".to_string(), 0).with_lookahead(Lookahead::new(true, "b".to_string())),
        Pattern::new("[a-z]".to_string(), 1),
    ];
    assert_eq!(
        scan(patterns, "abac"),
        vec![(0, 0, 1), (1, 1, 2), (1, 2, 3), (1, 3, 4)]
    );
}

#[test]
fn negative_lookahead() {
    let patterns = vec![
        Pattern::new("a".to_string(), 0).with_lookahead(Lookahead::new(false, "b".to_string())),
        Pattern::new("[a-z]".to_string(), 1),
    ];
    assert_eq!(
        scan(patterns, "abac"),
        vec![(1, 0, 1), (1, 1, 2), (0, 2, 3), (1, 3, 4)]
    );
}

#[test]
fn mode_switches_follow_the_transitions() {
    let modes = vec![
        ScannerMode::new(
            "INITIAL",
            vec![
                Pattern::new("\"".to_string(), 1),
                Pattern::new("[a-z]+".to_string(), 0),
            ],
            vec![(1, 1)],
        ),
        ScannerMode::new(
            "STRING",
            vec![
                Pattern::new("\"".to_string(), 1),
                Pattern::new("[^\"]+".to_string(), 2),
            ],
            vec![(1, 0)],
        ),
    ];
    let scanner = ScannerBuilder::new().add_scanner_modes(&modes).build().unwrap();
    let matches = scanner.find_iter("ab\"cd ef\"gh").collect();
    assert_eq!(
        spans(&matches),
        vec![(0, 0, 2), (1, 2, 3), (2, 3, 8), (1, 8, 9), (0, 9, 11)]
    );
}

#[test]
fn peek_reports_what_next_returns() {
    let scanner = ScannerBuilder::new()
        .add_patterns(&["[a-z]+", "[0-9]+"])
        .build()
        .unwrap();
    let mut find_iter = scanner.find_iter("ab 12 cd");
    // The peek stops at the blank, where nothing matches.
    match find_iter.peek_n(2) {
        PeekResult::MatchesReachedEnd(v) => {
            assert_eq!(spans(&v), vec![(0, 0, 2)]);
        }
        _ => panic!("the peek should reach the end of the matches"),
    }
    let first = find_iter.next().unwrap();
    assert_eq!((first.token_type(), first.start(), first.end()), (0, 0, 2));
}

#[test]
fn matches_do_not_overlap() {
    let scanner = ScannerBuilder::new()
        .add_patterns(&["[a-z]+", "[a-z0-9]+", " "])
        .build()
        .unwrap();
    let matches = scanner.find_iter("abc a1 1a xyz").collect();
    for pair in matches.windows(2) {
        assert!(pair[0].end() <= pair[1].start());
        assert!(pair[0].start() < pair[0].end());
    }
    assert_eq!(
        spans(&matches),
        vec![(0, 0, 3), (2, 3, 4), (1, 4, 6), (2, 6, 7), (1, 7, 9), (2, 9, 10), (0, 10, 13)]
    );
}

fn build_error(pattern: &str) -> String {
    match ScannerBuilder::new().add_patterns(&[pattern]).build() {
        Ok(_) => panic!("{} should not build", pattern),
        Err(e) => e.to_string(),
    }
}

#[test]
fn syntax_error_text() {
    let msg = build_error("[");
    // A pattern that does not parse is reported with the parser's text in the context `!`.
    assert!(msg.starts_with("'!' regex parse error:"), "{}", msg);
    assert!(msg.contains("unclosed character class"), "{}", msg);
}

#[test]
fn unsupported_named_class_text() {
    assert_eq!(
        build_error(r"\p{Greek}"),
        r"Unsupported regex feature: Error in pattern #0 '\\p{Greek}': Unicode named class Greek"
    );
}

#[test]
fn unsupported_named_value_text() {
    assert_eq!(
        build_error(r"\p{Script=Greek}"),
        r"Unsupported regex feature: Error in pattern #0 '\\p{Script=Greek}': Named value Script=Greek"
    );
}

#[test]
fn unsupported_one_letter_class_text() {
    assert_eq!(
        build_error(r"\pM"),
        r"Unsupported regex feature: Error in pattern #0 '\\pM': Unicode class one letter M"
    );
}

#[test]
fn non_greedy_repetition_text() {
    assert_eq!(
        build_error("a*?"),
        "Unsupported regex feature: Error in pattern #0 'a*?': a*?: Non-greedy repetionions. Consider using different scanner modes instead."
    );
}

#[test]
fn dot_matches_neither_line_feed_nor_carriage_return() {
    let patterns = vec![Pattern::new(".".to_string(), 0)];
    assert_eq!(scan(patterns, "a\r\nb"), vec![(0, 0, 1), (0, 3, 4)]);
}

#[test]
fn negated_class_matches_line_ends() {
    let patterns = vec![Pattern::new("[^a]".to_string(), 0)];
    assert_eq!(scan(patterns, "a\nb"), vec![(0, 1, 2), (0, 2, 3)]);
}

#[test]
fn span_formulas() {
    let span = Span::new(1, 3);
    assert_eq!(span.len(), 2);
    assert!(!span.is_empty());
    assert_eq!(span.range(), 1..3);
    assert_eq!(span.to_string(), "1..3");
    assert!(Span::new(2, 2).is_empty());
    assert_eq!(Span::from(4..9).len(), 5);
}

#[test]
fn pattern_text_escapes() {
    let pattern = Pattern::new("a\\b\n".to_string(), 0)
        .with_lookahead(Lookahead::new(false, "c\"".to_string()));
    assert_eq!(pattern.to_string(), "a\\\\b\\n(?!c\\\")");
    assert_eq!(
        Lookahead::new(true, "x".to_string()).to_string(),
        "(?=x)"
    );
}

#[test]
fn matching_state_keeps_the_longest_match() {
    let mut state = MatchingState::new();
    assert!(state.is_no_match());
    // A transition to a non-accepting state records the start of a match.
    state.transition_to_non_accepting(3);
    assert_eq!(state.inner_state(), InnerMatchingState::Start);
    assert_eq!(state.last_match(), None);
    // A transition to an accepting state records the end behind the character read.
    state.transition_to_accepting(4, 'ä');
    assert_eq!(state.inner_state(), InnerMatchingState::Accepting);
    assert_eq!(state.last_match(), Some(Span::new(3, 6)));
    // Without a further transition the match is the longest one, and stays so.
    state.no_transition();
    assert!(state.is_longest_match());
    state.no_transition();
    assert!(state.is_longest_match());
    assert_eq!(state.last_match(), Some(Span::new(3, 6)));
}

#[test]
fn matching_state_forgets_an_unfinished_start() {
    let mut state = MatchingState::new();
    state.transition_to_non_accepting(2);
    state.no_transition();
    assert!(state.is_no_match());
    assert_eq!(state.last_match(), None);
}

fn single(pattern: &str, input: &str) -> Vec<(usize, usize, usize)> {
    scan(vec![Pattern::new(pattern.to_string(), 0)], input)
}

#[test]
fn concatenation_matches_words_one_after_the_other() {
    assert_eq!(single("ab", "abab"), vec![(0, 0, 2), (0, 2, 4)]);
}

#[test]
fn alternation_matches_either_word() {
    assert_eq!(single("ab|c", "cab"), vec![(0, 0, 1), (0, 1, 3)]);
}

#[test]
fn optional_matches_with_and_without_the_word() {
    assert_eq!(single("ab?", "aab"), vec![(0, 0, 1), (0, 1, 3)]);
}

#[test]
fn repetition_matches_one_or_more_words() {
    assert_eq!(single("(ab)+", "ababxab"), vec![(0, 0, 4), (0, 5, 7)]);
}

#[test]
fn optional_repetition_matches_any_number_of_words() {
    assert_eq!(single("a(bc)*", "abcbca"), vec![(0, 0, 5), (0, 5, 6)]);
}

#[test]
fn scanner_without_patterns_builds_and_finds_nothing() {
    let scanner = ScannerBuilder::new()
        .add_scanner_mode(ScannerMode::new("INITIAL", vec![], vec![]))
        .build()
        .unwrap();
    let matches: Vec<Match> = scanner.find_iter("abc").collect();
    assert!(matches.is_empty());
    assert!(ScannerBuilder::new().build().is_ok());
}

#[test]
fn last_match_exists_exactly_when_accepting_or_longest() {
    let fits = |s: &MatchingState| {
        let accepting = matches!(s.inner_state(), InnerMatchingState::Accepting | InnerMatchingState::Longest);
        s.last_match().is_some() == accepting
    };
    let mut state = MatchingState::new();
    assert!(fits(&state));
    state.no_transition();
    assert!(fits(&state));
    state.transition_to_non_accepting(0);
    assert!(fits(&state));
    state.no_transition();
    assert!(fits(&state));
    assert!(state.is_no_match());
    state.transition_to_accepting(2, 'x');
    assert!(fits(&state));
    state.transition_to_non_accepting(3);
    assert!(fits(&state));
    state.set_current_state(7);
    assert!(fits(&state));
    state.no_transition();
    assert!(fits(&state));
    assert_eq!(state.last_match(), Some(Span::new(2, 3)));
}

#[test]
fn offset_behind_the_haystack_is_its_length() {
    let scanner = ScannerBuilder::new().add_patterns(&["a"]).build().unwrap();
    let mut it = scanner.find_iter("abc").with_offset(10);
    assert_eq!(it.offset(), 3);
    assert!(it.next_match().is_none());
    let mut it = scanner.find_iter("cba");
    it.set_offset(2);
    let m = it.next_match().unwrap();
    assert_eq!((m.start(), m.end()), (2, 3));
    assert_eq!(it.offset(), 3);
}
