//! Tests of scanner modes, their compilation, the scanner implementation and the builders.
use scnr::char_matcher::CharMatcher;
use scnr::character_class::{ClassKey, ClassKeyKind, CharacterClass, CharacterClassRegistry};
use scnr::compiled_scanner_mode::CompiledScannerMode;
use scnr::multi_pattern_nfa::MultiPatternNfa;
use scnr::char_matcher::class_matcher;
use scnr::nfa::literal_class_key;
use scnr::regex_ast::parse_regex_syntax;
use scnr::scanner_nfa_impl::ScannerNfaImpl;
use scnr::{Pattern, ScannerBuilder, ScannerMode, ScannerModeSwitcher};

fn line_comment_mode(transitions: Vec<(usize, usize)>) -> ScannerMode {
    ScannerMode::new(
        "INITIAL",
        vec![
            Pattern::new(r"\r\n|\r|\n".to_string(), 1),
            Pattern::new(r"(//.*(\r\n|\r|\n))".to_string(), 3),
        ],
        transitions,
    )
}

#[test]
fn scanner_test_scanner_builder_with_single_mode() {
    let scanner_mode = line_comment_mode(vec![(1, 1), (3, 1)]);
    let scanner = ScannerBuilder::new()
        .add_scanner_mode(scanner_mode)
        .build()
        .unwrap();
    assert_eq!(Some("INITIAL"), scanner.inner.mode_name(0));
}

#[test]
// Test the correct sharing of the current mode between the scanner and the scanner impl.
fn scanner_test_scanner_current_mode() {
    let scanner_mode = line_comment_mode(vec![(1, 1), (3, 1)]);
    let mut scanner = ScannerBuilder::new()
        .add_scanner_mode(scanner_mode)
        .build()
        .unwrap();
    // At the beginning, the scanner mode is 0.
    assert_eq!(0, scanner.current_mode());
    assert_eq!(0, scanner.inner.current_mode());

    scanner.set_mode(1);
    assert_eq!(1, scanner.current_mode());
    assert_eq!(1, scanner.inner.current_mode());

    let mut find_iter = scanner.find_iter("Hello\nWorld");
    // The creation of a find_iter sets its own scanner mode to 0.
    assert_eq!(0, find_iter.current_mode());

    assert_eq!(1, scanner.current_mode());
    assert_eq!(1, scanner.inner.current_mode());
    assert_eq!(1, scanner.inner.clone().current_mode());

    find_iter.set_mode(1);
    assert_eq!(1, find_iter.current_mode());
    scanner.set_mode(0);
    assert_eq!(0, scanner.current_mode());
    assert_eq!(0, scanner.inner.current_mode());
    assert_eq!(0, scanner.inner.clone().current_mode());
}

#[test]
fn scanner_builder_test_scanner_builder_with_single_mode() {
    let scanner_mode = line_comment_mode(vec![(1, 1), (3, 1)]);
    let scanner = ScannerBuilder::new()
        .add_scanner_mode(scanner_mode)
        .build()
        .unwrap();
    assert_eq!("INITIAL", scanner.inner.scanner_modes[0].name);
}

#[test]
fn scanner_builder_test_scanner_builder_with_multiple_modes() {
    let scanner_modes = vec![
        line_comment_mode(vec![(1, 1), (3, 1)]),
        ScannerMode::new(
            "STRING",
            vec![Pattern::new(r#""[^"]*""#.to_string(), 2)],
            vec![(2, 0)],
        ),
    ];
    let scanner = ScannerBuilder::new()
        .add_scanner_modes(&scanner_modes)
        .build()
        .unwrap();
    assert_eq!("INITIAL", scanner.inner.scanner_modes[0].name);
}

#[test]
fn scanner_builder_test_simple_scanner_builder() {
    let scanner = ScannerBuilder::new()
        .add_patterns(&["\r\n|\r|\n", "//.*(\r\n|\r|\n)"])
        .build()
        .unwrap();
    assert_eq!("INITIAL", scanner.inner.scanner_modes[0].name);
    let input = r#"
        // Line comment1

        // Line comment2
        "#;

    let matches: Vec<_> = scanner.find_iter(input).collect();
    assert_eq!(matches.len(), 4);
    assert_eq!(matches[0].token_type(), 0);
    assert_eq!(matches[1].token_type(), 1);
    assert_eq!(
        &input[matches[1].span().range()].to_string().trim(),
        &"// Line comment1"
    );
    assert_eq!(matches[2].token_type(), 0);
    assert_eq!(matches[3].token_type(), 1);
    assert_eq!(
        &input[matches[3].span().range()].to_string().trim(),
        &"// Line comment2"
    );
}

#[test]
fn test_scanner_mode() {
    let scanner_mode = line_comment_mode(vec![]);
    assert_eq!("INITIAL", scanner_mode.name());
    assert_eq!(2, scanner_mode.patterns.len());
    assert_eq!(0, scanner_mode.transitions.len());
}

#[test]
fn test_compiled_scanner_mode() {
    let mut character_class_registry = CharacterClassRegistry::new();
    let scanner_mode = ScannerMode {
        name: "test".to_string(),
        patterns: vec![Pattern::new("a".to_string(), 0)],
        transitions: vec![(0, 1)],
    };
    let compiled_scanner_mode =
        CompiledScannerMode::try_from_scanner_mode(scanner_mode, &mut character_class_registry)
            .unwrap();
    assert_eq!(compiled_scanner_mode.name, "test");
    assert_eq!(compiled_scanner_mode.transitions.len(), 1);
}

#[test]
fn test_compiled_scanner_mode_error() {
    let mut character_class_registry = CharacterClassRegistry::new();
    let scanner_mode = ScannerMode {
        name: "test".to_string(),
        patterns: vec![Pattern::new("[".to_string(), 0)],
        transitions: vec![(0, 1)],
    };
    let compiled_scanner_mode =
        CompiledScannerMode::try_from_scanner_mode(scanner_mode, &mut character_class_registry);
    assert!(compiled_scanner_mode.is_err());
}

#[test]
fn test_compiled_scanner_mode_transition() {
    let mut character_class_registry = CharacterClassRegistry::new();
    let scanner_mode = ScannerMode {
        name: "test".to_string(),
        patterns: vec![Pattern::new("a".to_string(), 0)],
        transitions: vec![(0, 1), (1, 2)],
    };
    let compiled_scanner_mode =
        CompiledScannerMode::try_from_scanner_mode(scanner_mode, &mut character_class_registry)
            .unwrap();
    assert_eq!(compiled_scanner_mode.has_transition(0), Some(1));
    assert_eq!(compiled_scanner_mode.has_transition(1), Some(2));
    assert_eq!(compiled_scanner_mode.has_transition(2), None);
    assert_eq!(compiled_scanner_mode.has_transition(3), None);
}

fn two_modes() -> Vec<ScannerMode> {
    vec![
        ScannerMode::new("mode1", vec![Pattern::new("a".to_string(), 0)], vec![]),
        ScannerMode::new("mode2", vec![Pattern::new("b".to_string(), 1)], vec![]),
    ]
}

#[test]
fn scanner_nfa_impl_test_try_from() {
    let scanner_impl = ScannerNfaImpl::try_from(two_modes()).unwrap();
    assert_eq!(scanner_impl.scanner_modes.len(), 2);
}

#[test]
fn scanner_nfa_impl_test_match_char_class() {
    let scanner_impl = ScannerNfaImpl::try_from(two_modes()).unwrap();
    assert!(scanner_impl.match_char_class(0, 'a'));
    assert!(!scanner_impl.match_char_class(0, 'b'));
    assert!(!scanner_impl.match_char_class(0, 'c'));
    assert!(!scanner_impl.match_char_class(1, 'a'));
    assert!(scanner_impl.match_char_class(1, 'b'));
    assert!(!scanner_impl.match_char_class(1, 'c'));
}

#[test]
fn scanner_impl_test_try_from() {
    let scanner_impl = ScannerNfaImpl::try_from(two_modes()).unwrap();
    assert_eq!(scanner_impl.character_classes.len(), 2);
    assert_eq!(scanner_impl.scanner_modes.len(), 2);
}

#[test]
fn scanner_impl_test_match_char_class() {
    let scanner_impl = ScannerNfaImpl::try_from(two_modes()).unwrap();
    assert!(scanner_impl.match_char_class(0, 'a'));
    assert!(!scanner_impl.match_char_class(0, 'b'));
    assert!(!scanner_impl.match_char_class(0, 'c'));
    assert!(!scanner_impl.match_char_class(1, 'a'));
    assert!(scanner_impl.match_char_class(1, 'b'));
    assert!(!scanner_impl.match_char_class(1, 'c'));
}

#[test]
fn test_try_from_patterns_single() {
    let mut character_class_registry = CharacterClassRegistry::new();
    let multi_pattern_nfa = MultiPatternNfa::try_from_patterns(
        &[Pattern::new("a+".to_string(), 0)],
        &mut character_class_registry,
    )
    .unwrap();
    assert_eq!(multi_pattern_nfa.patterns().len(), 1);
    assert_eq!(multi_pattern_nfa.start_transitions().len(), 1);
}

#[test]
fn test_parse_regex_syntax_valid() {
    // Valid regex syntax
    let input = r"\d";
    let ast = parse_regex_syntax(input).unwrap();
    // The tree is a class of digits.
    let digits = class_matcher(&ast).unwrap();
    assert!(digits.matches('7'));
    assert!(!digits.matches('x'));
}

#[test]
fn test_parse_regex_syntax_empty() {
    // Empty regex syntax
    let input = "";
    let result = parse_regex_syntax(input);
    assert!(result.is_ok());
}

/// The key of a literal written verbatim.
fn verbatim_literal(c: char) -> ClassKey {
    ClassKey {
        kind: ClassKeyKind::Literal,
        c,
        text: "Verbatim".chars().collect(),
    }
}

#[test]
fn character_class_test_character_class_equality() {
    let class1 = CharacterClass::new(0, verbatim_literal('a'), CharMatcher::Nothing);
    let class2 = CharacterClass::new(0, verbatim_literal('a'), CharMatcher::Nothing);
    let class3 = CharacterClass::new(1, verbatim_literal('b'), CharMatcher::Nothing);
    assert!(class1.key.equals(&class2.key));
    assert!(!class1.key.equals(&class3.key));
}

#[test]
fn character_class_test_character_class_equality_special() {
    let ast1 = parse_regex_syntax("\r").unwrap();
    let class1 = CharacterClass::new(0, literal_class_key(&ast1, '\r'), CharMatcher::Nothing);
    let class2 = CharacterClass::new(0, verbatim_literal('\r'), CharMatcher::Nothing);
    assert!(class1.key.equals(&class2.key));
}

// Patterns with nested repetitions that make backtracking matchers slow.
struct PathologicalCase {
    pattern: &'static str,
    input: &'static str,
    expected_match: Option<&'static str>,
}

const PATHOLOGICAL_CASES: &[PathologicalCase] = &[
    PathologicalCase {
        pattern: r"((a*)*b)",
        input: "aaaaaaaaaaaaaaaaaaaaaaaaaab",
        expected_match: Some("aaaaaaaaaaaaaaaaaaaaaaaaaab"),
    },
    PathologicalCase {
        pattern: r"(a+)+b",
        input: "aaaaaaaaaaaaaaaaaaaaaaaaaab",
        expected_match: Some("aaaaaaaaaaaaaaaaaaaaaaaaaab"),
    },
    PathologicalCase {
        pattern: r"(a+)+b",
        input: "aaaaaaaaaaaaaaaaaaaaaaaaaa",
        expected_match: None,
    },
    PathologicalCase {
        pattern: r"(a|aa)+b",
        input: "aaaaaaaaaaaaaaaaaaaaaaaaaab",
        expected_match: Some("aaaaaaaaaaaaaaaaaaaaaaaaaab"),
    },
    PathologicalCase {
        pattern: r"(a|a?)+b",
        input: "aaaaaaaaaaaaaaaaaaaaaaaaaab",
        expected_match: Some("aaaaaaaaaaaaaaaaaaaaaaaaaab"),
    },
    PathologicalCase {
        pattern: r"((a|aa|aaa|aaaa|aaaaa)*)*b",
        input: "aaaaaaaaaaaaaaaaaaaaaaaaaab",
        expected_match: Some("aaaaaaaaaaaaaaaaaaaaaaaaaab"),
    },
    PathologicalCase {
        pattern: r"((a*a*a*a*a*a*)*)*b",
        input: "aaaaaaaaaaaaaaaaaaaaaaaaaab",
        expected_match: Some("aaaaaaaaaaaaaaaaaaaaaaaaaab"),
    },
    PathologicalCase {
        pattern: r"a{3}{3}*b",
        input: "aaaaaaaaaaaaaaaaaaaaaaaaaaab",
        expected_match: Some("aaaaaaaaaaaaaaaaaaaaaaaaaaab"),
    },
    PathologicalCase {
        pattern: r"a{5}{5}{5}{5}{5}{5}*b",
        input: "aaaaaaaaaaaaaaaaaaaaaaaaaaab",
        expected_match: Some("b"),
    },
];

#[test]
fn scanner_test_pathological_regular_expressions_dfa() {
    for test in PATHOLOGICAL_CASES.iter() {
        let scanner_mode = ScannerMode::new(
            "INITIAL",
            vec![Pattern::new(test.pattern.to_string(), 1)],
            vec![],
        );
        let scanner = ScannerBuilder::new()
            .add_scanner_mode(scanner_mode)
            .build()
            .unwrap();
        let mut find_iter = scanner.find_iter(test.input);
        let match1 = find_iter.next();
        assert_eq!(
            test.expected_match,
            match1.map(|m| test.input.get(m.start()..m.end()).unwrap())
        );
    }
}
