use scnr::{
    Match, MatchExt, MatchExtIterator, Pattern, PeekResult, Position, ScannerBuilder, ScannerMode,
    Span,
};

fn modes() -> Vec<ScannerMode> {
    vec![
        ScannerMode::new(
            "INITIAL",
            vec![
                Pattern::new(r"\r\n|\r|\n".to_string(), 0),
                Pattern::new(r"[\s--\r\n]+".to_string(), 1),
                Pattern::new(r"//.*(\r\n|\r|\n)".to_string(), 2),
                Pattern::new(r"/\*([.\r\n--*]|\*[^/])*\*/".to_string(), 3),
                Pattern::new(r"[a-zA-Z_]\w*".to_string(), 4),
                Pattern::new(r"\u{22}".to_string(), 8),
                Pattern::new(r".".to_string(), 9),
            ],
            vec![(8, 1)],
        ),
        ScannerMode::new(
            "STRING",
            vec![
                Pattern::new(r"\u{5c}[\u{22}\u{5c}bfnt]".to_string(), 5),
                Pattern::new(r"\u{5c}[\s^\n\r]*\r?\n".to_string(), 6),
                Pattern::new(r"[^\u{22}\u{5c}]+".to_string(), 7),
                Pattern::new(r"\u{22}".to_string(), 8),
                Pattern::new(r".".to_string(), 9),
            ],
            vec![(8, 0)],
        ),
    ]
}

const INPUT: &str = r#"
Id1
"1. String"
Id2
"#;

fn m(t: usize, s: usize, e: usize) -> Match {
    Match::new(t, Span::new(s, e))
}

#[test]
fn find_matches_impl_test_find_matches_impl() {
    let scanner = ScannerBuilder::new()
        .add_scanner_modes(&modes())
        .build()
        .unwrap();
    let find_matches = scanner.find_iter(INPUT);
    let matches: Vec<Match> = find_matches.collect();
    assert_eq!(matches.len(), 9);
    assert_eq!(
        matches,
        vec![
            m(0, 0, 1),
            m(4, 1, 4),
            m(0, 4, 5),
            m(8, 5, 6),
            m(7, 6, 15),
            m(8, 15, 16),
            m(0, 16, 17),
            m(4, 17, 20),
            m(0, 20, 21)
        ]
    );
    assert_eq!(
        matches
            .iter()
            .map(|m| INPUT.get(m.span().start..m.span().end).unwrap())
            .collect::<Vec<_>>(),
        vec!["\n", "Id1", "\n", "\"", "1. String", "\"", "\n", "Id2", "\n"]
    );
}

#[test]
fn find_matches_impl_test_peek_n() {
    let scanner = ScannerBuilder::new()
        .add_scanner_modes(&modes())
        .build()
        .unwrap();
    let mut find_iter = scanner.find_iter(INPUT);
    let peeked = find_iter.peek_n(2);
    assert_eq!(peeked, PeekResult::Matches(vec![m(0, 0, 1), m(4, 1, 4)]));
    let peeked = find_iter.peek_n(4);
    assert_eq!(
        peeked,
        PeekResult::MatchesReachedModeSwitch((
            vec![m(0, 0, 1), m(4, 1, 4), m(0, 4, 5), m(8, 5, 6)],
            1,
        ))
    );
    let peeked = find_iter.peek_n(5);
    assert_eq!(
        peeked,
        PeekResult::MatchesReachedModeSwitch((
            vec![m(0, 0, 1), m(4, 1, 4), m(0, 4, 5), m(8, 5, 6)],
            1,
        ))
    );
    for _ in 0..7 {
        find_iter.next_match();
    }
    let peeked = find_iter.peek_n(4);
    assert_eq!(
        peeked,
        PeekResult::MatchesReachedEnd(vec![m(4, 17, 20), m(0, 20, 21)])
    );
}

#[test]
fn find_matches_impl_test_peek_does_not_effect_the_iterator() {
    let scanner = ScannerBuilder::new()
        .add_scanner_modes(&modes())
        .build()
        .unwrap();
    let mut find_iter = scanner.find_iter(INPUT);
    let peeked = find_iter.peek_n(2);
    assert_eq!(peeked, PeekResult::Matches(vec![m(0, 0, 1), m(4, 1, 4)]));
    let peeked = find_iter.peek_n(2);
    assert_eq!(peeked, PeekResult::Matches(vec![m(0, 0, 1), m(4, 1, 4)]));
}

#[test]
fn find_matches_impl_test_advance_to() {
    let scanner = ScannerBuilder::new()
        .add_scanner_modes(&modes())
        .build()
        .unwrap();
    let mut find_iter = scanner.find_iter(INPUT);
    let peeked = find_iter.peek_n(2);
    assert_eq!(peeked, PeekResult::Matches(vec![m(0, 0, 1), m(4, 1, 4)]));
    let new_position = find_iter.advance_to(4);
    assert_eq!(new_position, 3);
    let peeked = find_iter.peek_n(3);
    assert_eq!(
        peeked,
        PeekResult::MatchesReachedModeSwitch((vec![m(0, 4, 5), m(8, 5, 6)], 1))
    );
}

#[test]
fn find_matches_impl_test_with_positions() {
    let scanner = ScannerBuilder::new()
        .add_scanner_modes(&modes())
        .build()
        .unwrap();
    let mut find_iter = scanner.find_iter(INPUT).with_positions();
    let mut matches: Vec<MatchExt> = Vec::new();
    while let Some(m) = find_iter.next() {
        matches.push(m);
    }
    assert_eq!(matches.len(), 9);
    let p = Position::new;
    assert_eq!(
        matches,
        vec![
            MatchExt::new(0, Span::new(0, 1), p(1, 1), p(1, 2)),
            MatchExt::new(4, Span::new(1, 4), p(2, 1), p(2, 4)),
            MatchExt::new(0, Span::new(4, 5), p(2, 4), p(2, 5)),
            MatchExt::new(8, Span::new(5, 6), p(3, 1), p(3, 2)),
            MatchExt::new(7, Span::new(6, 15), p(3, 2), p(3, 11)),
            MatchExt::new(8, Span::new(15, 16), p(3, 11), p(3, 12)),
            MatchExt::new(0, Span::new(16, 17), p(3, 12), p(3, 13)),
            MatchExt::new(4, Span::new(17, 20), p(4, 1), p(4, 4)),
            MatchExt::new(0, Span::new(20, 21), p(4, 4), p(4, 5)),
        ]
    );
}

/// The modes of the tests of the public iterator: the block comment excludes `*` by a negated
/// class.
fn public_api_modes() -> Vec<ScannerMode> {
    let mut modes = modes();
    modes[0].patterns[3] = Pattern::new(r"/\*([^*]|\*[^/])*\*/".to_string(), 3);
    modes
}

#[test]
fn find_matches_test_find_matches_impl() {
    let scanner = ScannerBuilder::new()
        .add_scanner_modes(&public_api_modes())
        .build()
        .unwrap();
    let find_matches = scanner.find_iter(INPUT);
    let matches: Vec<Match> = find_matches.collect();
    assert_eq!(matches.len(), 9);
    assert_eq!(
        matches,
        vec![
            m(0, 0, 1),
            m(4, 1, 4),
            m(0, 4, 5),
            m(8, 5, 6),
            m(7, 6, 15),
            m(8, 15, 16),
            m(0, 16, 17),
            m(4, 17, 20),
            m(0, 20, 21)
        ]
    );
    assert_eq!(
        matches
            .iter()
            .map(|m| INPUT.get(m.span().start..m.span().end).unwrap())
            .collect::<Vec<_>>(),
        vec!["\n", "Id1", "\n", "\"", "1. String", "\"", "\n", "Id2", "\n"]
    );
}

#[test]
fn find_matches_test_peek_n() {
    let scanner = ScannerBuilder::new()
        .add_scanner_modes(&public_api_modes())
        .build()
        .unwrap();
    let mut find_iter = scanner.find_iter(INPUT);
    let peeked = find_iter.peek_n(2);
    assert_eq!(peeked, PeekResult::Matches(vec![m(0, 0, 1), m(4, 1, 4)]));
    let peeked = find_iter.peek_n(4);
    assert_eq!(
        peeked,
        PeekResult::MatchesReachedModeSwitch((
            vec![m(0, 0, 1), m(4, 1, 4), m(0, 4, 5), m(8, 5, 6)],
            1,
        ))
    );
    let peeked = find_iter.peek_n(5);
    assert_eq!(
        peeked,
        PeekResult::MatchesReachedModeSwitch((
            vec![m(0, 0, 1), m(4, 1, 4), m(0, 4, 5), m(8, 5, 6)],
            1,
        ))
    );
    for _ in 0..7 {
        find_iter.next_match();
    }
    let peeked = find_iter.peek_n(4);
    assert_eq!(
        peeked,
        PeekResult::MatchesReachedEnd(vec![m(4, 17, 20), m(0, 20, 21)])
    );
}

#[test]
fn find_matches_test_peek_does_not_effect_the_iterator() {
    let scanner = ScannerBuilder::new()
        .add_scanner_modes(&public_api_modes())
        .build()
        .unwrap();
    let mut find_iter = scanner.find_iter(INPUT);
    let peeked = find_iter.peek_n(2);
    assert_eq!(peeked, PeekResult::Matches(vec![m(0, 0, 1), m(4, 1, 4)]));
    let peeked = find_iter.peek_n(2);
    assert_eq!(peeked, PeekResult::Matches(vec![m(0, 0, 1), m(4, 1, 4)]));
}

#[test]
fn find_matches_test_advance_to() {
    let scanner = ScannerBuilder::new()
        .add_scanner_modes(&public_api_modes())
        .build()
        .unwrap();
    let mut find_iter = scanner.find_iter(INPUT);
    let peeked = find_iter.peek_n(2);
    assert_eq!(peeked, PeekResult::Matches(vec![m(0, 0, 1), m(4, 1, 4)]));
    let new_position = find_iter.advance_to(4);
    assert_eq!(new_position, 3);
    let peeked = find_iter.peek_n(3);
    assert_eq!(
        peeked,
        PeekResult::MatchesReachedModeSwitch((vec![m(0, 4, 5), m(8, 5, 6)], 1))
    );
}

#[test]
fn find_matches_test_with_positions() {
    let scanner = ScannerBuilder::new()
        .add_scanner_modes(&public_api_modes())
        .build()
        .unwrap();
    let mut find_iter = scanner.find_iter(INPUT).with_positions();
    let mut matches: Vec<MatchExt> = Vec::new();
    while let Some(m) = find_iter.next() {
        matches.push(m);
    }
    assert_eq!(matches.len(), 9);
    let p = Position::new;
    assert_eq!(
        matches,
        vec![
            MatchExt::new(0, Span::new(0, 1), p(1, 1), p(1, 2)),
            MatchExt::new(4, Span::new(1, 4), p(2, 1), p(2, 4)),
            MatchExt::new(0, Span::new(4, 5), p(2, 4), p(2, 5)),
            MatchExt::new(8, Span::new(5, 6), p(3, 1), p(3, 2)),
            MatchExt::new(7, Span::new(6, 15), p(3, 2), p(3, 11)),
            MatchExt::new(8, Span::new(15, 16), p(3, 11), p(3, 12)),
            MatchExt::new(0, Span::new(16, 17), p(3, 12), p(3, 13)),
            MatchExt::new(4, Span::new(17, 20), p(4, 1), p(4, 4)),
            MatchExt::new(0, Span::new(20, 21), p(4, 4), p(4, 5)),
        ]
    );
}
