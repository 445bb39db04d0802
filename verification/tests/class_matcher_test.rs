//! Tests of the character class matchers built from class syntax trees.
use regex_syntax::ast::parse::Parser;
use scnr::char_matcher::{class_matcher, CharMatcher};
use scnr::unicode_props::UcdProperty;

#[test]
fn char_matcher_test_match_function_unicode_class() {
    let ast = Parser::new().parse(r"\pL").unwrap();
    let char_matcher = class_matcher(&ast).unwrap();
    assert!(char_matcher.matches('a'));
    assert!(char_matcher.matches('A'));
    assert!(!char_matcher.matches('1'));
    assert!(!char_matcher.matches(' '));
}

#[test]
fn char_matcher_test_match_function_perl_class() {
    let ast = Parser::new().parse(r"\d").unwrap();
    let char_matcher = class_matcher(&ast).unwrap();
    assert!(char_matcher.matches('1'));
    assert!(!char_matcher.matches('a'));
}

#[test]
fn char_matcher_test_match_function_bracketed_class() {
    let ast = Parser::new().parse(r"[a-z]").unwrap();
    let char_matcher = class_matcher(&ast).unwrap();
    assert!(char_matcher.matches('a'));
    assert!(char_matcher.matches('z'));
    assert!(!char_matcher.matches('A'));
    assert!(!char_matcher.matches('1'));
}

#[test]
fn char_matcher_test_match_function_binary_op_class_intersection() {
    // Intersection (matching x or y)
    let ast = Parser::new().parse(r"[a-y&&xyz]").unwrap();
    let char_matcher = class_matcher(&ast).unwrap();
    assert!(char_matcher.matches('x'));
    assert!(char_matcher.matches('y'));
    assert!(!char_matcher.matches('a'));
    assert!(!char_matcher.matches('z'));
}

#[test]
fn char_matcher_test_match_function_union_class() {
    let ast = Parser::new().parse(r"[0-9a-z]").unwrap();
    let char_matcher = class_matcher(&ast).unwrap();
    assert!(char_matcher.matches('a'));
    assert!(char_matcher.matches('z'));
    assert!(char_matcher.matches('0'));
    assert!(char_matcher.matches('9'));
    assert!(!char_matcher.matches('!'));
}

#[test]
fn char_matcher_test_match_function_negated_bracketed_class() {
    let ast = Parser::new().parse(r"[^a-z]").unwrap();
    let char_matcher = class_matcher(&ast).unwrap();
    assert!(!char_matcher.matches('a'));
    assert!(!char_matcher.matches('z'));
    assert!(char_matcher.matches('A'));
    assert!(char_matcher.matches('1'));
}

#[test]
fn char_matcher_test_match_function_negated_binary_op_class() {
    let ast = Parser::new().parse(r"[a-z&&[^aeiou]]").unwrap();
    let char_matcher = class_matcher(&ast).unwrap();
    assert!(!char_matcher.matches('a'));
    assert!(!char_matcher.matches('e'));
    assert!(char_matcher.matches('z'));
    assert!(!char_matcher.matches('1'));
}

#[test]
fn char_matcher_test_match_function_ascci_class() {
    let ast = Parser::new().parse(r"[[:alpha:]]").unwrap();
    let char_matcher = class_matcher(&ast).unwrap();
    assert!(char_matcher.matches('a'));
    assert!(char_matcher.matches('A'));
    assert!(char_matcher.matches('ä'));
    assert!(!char_matcher.matches('1'));
    assert!(!char_matcher.matches(' '));
}

#[test]
fn char_matcher_test_match_function_negated_ascii_class() {
    let ast = Parser::new().parse(r"[^[:alpha:]]").unwrap();
    let char_matcher = class_matcher(&ast).unwrap();
    println!("{:?}", char_matcher);
    assert!(!char_matcher.matches('a'));
    assert!(!char_matcher.matches('A'));
    assert!(!char_matcher.matches('ä'));
    assert!(char_matcher.matches('1'));
    assert!(char_matcher.matches(' '));
}

#[test]
fn test_match_function_negated_ascii_class_2() {
    let ast = Parser::new().parse(r"[[:^alpha:]]").unwrap();
    let char_matcher = class_matcher(&ast).unwrap();
    assert!(!char_matcher.matches('a'));
    assert!(!char_matcher.matches('A'));
    assert!(!char_matcher.matches('ä'));
    assert!(char_matcher.matches('1'));
    assert!(char_matcher.matches(' '));
}

#[test]
fn char_matcher_test_match_function_empty() {
    let ast = Parser::new().parse(r"").unwrap();
    let char_matcher = class_matcher(&ast).unwrap();
    assert!(char_matcher.matches('a'));
    assert!(char_matcher.matches('A'));
    assert!(char_matcher.matches('1'));
    assert!(char_matcher.matches(' '));
}

#[test]
fn char_matcher_test_nested_classes() {
    let ast = Parser::new().parse(r"[x[^xyz]]").unwrap();
    let char_matcher = class_matcher(&ast).unwrap();
    assert!(char_matcher.matches('a'));
    assert!(char_matcher.matches('x'));
    assert!(char_matcher.matches('1'));
    assert!(char_matcher.matches(' '));
    assert!(!char_matcher.matches('y'));
    assert!(!char_matcher.matches('z'));
}

#[test]
fn char_matcher_test_subtraction() {
    let ast = Parser::new().parse(r"[0-9&&[^4]]").unwrap();
    let char_matcher = class_matcher(&ast).unwrap();
    assert!(char_matcher.matches('0'));
    assert!(char_matcher.matches('9'));
    assert!(!char_matcher.matches('4'));
    assert!(!char_matcher.matches('a'));
}

#[test]
fn char_matcher_test_direct_subtraction() {
    let ast = Parser::new().parse(r"[0-9--4]").unwrap();
    let char_matcher = class_matcher(&ast).unwrap();
    assert!(char_matcher.matches('0'));
    assert!(char_matcher.matches('9'));
    assert!(!char_matcher.matches('4'));
    assert!(!char_matcher.matches('a'));
}

#[test]
fn char_matcher_test_symmetric_difference() {
    let ast = Parser::new().parse(r"[a-g~~b-h]").unwrap();
    let char_matcher = class_matcher(&ast).unwrap();
    assert!(char_matcher.matches('a'));
    assert!(char_matcher.matches('h'));
    assert!(!char_matcher.matches('b'));
    assert!(!char_matcher.matches('z'));
}

#[test]
fn char_matcher_test_escaping() {
    let ast = Parser::new().parse(r"[\[\]]").unwrap();
    let char_matcher = class_matcher(&ast).unwrap();
    assert!(char_matcher.matches('['));
    assert!(char_matcher.matches(']'));
    assert!(!char_matcher.matches('a'));
    assert!(!char_matcher.matches('1'));
}

#[test]
fn char_matcher_test_empty_intersection() {
    let ast = Parser::new().parse(r"[a&&b]").unwrap();
    let char_matcher = class_matcher(&ast).unwrap();
    assert!(!char_matcher.matches('a'));
    assert!(!char_matcher.matches('b'));
    assert!(!char_matcher.matches('1'));
    assert!(!char_matcher.matches(' '));
}

#[test]
fn char_matcher_test_negated_subtraction() {
    let ast = Parser::new().parse(r"[^a--b]").unwrap();
    let char_matcher = class_matcher(&ast).unwrap();
    assert!(!char_matcher.matches('a'));
    assert!(char_matcher.matches('b'));
    assert!(char_matcher.matches('1'));
    assert!(char_matcher.matches(' '));
}

#[test]
fn char_matcher_test_named_classes() {
    let ast = Parser::new().parse(r"\p{XID_Start}").unwrap();
    let char_matcher = class_matcher(&ast).unwrap();
    assert!(char_matcher.matches('a'));
    assert!(char_matcher.matches('A'));
    assert!(!char_matcher.matches('1'));
    assert!(!char_matcher.matches(' '));

    let ast = Parser::new().parse(r"\p{XID_Continue}").unwrap();
    let char_matcher = class_matcher(&ast).unwrap();
    assert!(char_matcher.matches('a'));
    assert!(char_matcher.matches('A'));
    assert!(char_matcher.matches('1'));
    assert!(!char_matcher.matches(' '));
}

#[test]
fn char_matcher_test_evaluate_general_category() {
    // '_' is a connector punctuation (general category Pc).
    assert!(CharMatcher::Property(UcdProperty::ConnectorPunctuation).matches('_'));
    let ast = Parser::new().parse(r"\w").unwrap();
    let char_matcher = class_matcher(&ast).unwrap();
    assert!(char_matcher.matches('_'));
}

#[test]
fn match_function_test_match_function_unicode_class() {
    let ast = Parser::new().parse(r"\pL").unwrap();
    let match_function = class_matcher(&ast).unwrap();
    assert!(match_function.matches('a'));
    assert!(match_function.matches('A'));
    assert!(!match_function.matches('1'));
    assert!(!match_function.matches(' '));
}

#[test]
fn match_function_test_match_function_perl_class() {
    let ast = Parser::new().parse(r"\d").unwrap();
    let match_function = class_matcher(&ast).unwrap();
    assert!(match_function.matches('1'));
    assert!(!match_function.matches('a'));
}

#[test]
fn match_function_test_match_function_bracketed_class() {
    let ast = Parser::new().parse(r"[a-z]").unwrap();
    let match_function = class_matcher(&ast).unwrap();
    assert!(match_function.matches('a'));
    assert!(match_function.matches('z'));
    assert!(!match_function.matches('A'));
    assert!(!match_function.matches('1'));
}

#[test]
fn match_function_test_match_function_binary_op_class_intersection() {
    // Intersection (matching x or y)
    let ast = Parser::new().parse(r"[a-y&&xyz]").unwrap();
    let match_function = class_matcher(&ast).unwrap();
    assert!(match_function.matches('x'));
    assert!(match_function.matches('y'));
    assert!(!match_function.matches('a'));
    assert!(!match_function.matches('z'));
}

#[test]
fn match_function_test_match_function_union_class() {
    let ast = Parser::new().parse(r"[0-9a-z]").unwrap();
    let match_function = class_matcher(&ast).unwrap();
    assert!(match_function.matches('a'));
    assert!(match_function.matches('z'));
    assert!(match_function.matches('0'));
    assert!(match_function.matches('9'));
    assert!(!match_function.matches('!'));
}

#[test]
fn match_function_test_match_function_negated_bracketed_class() {
    let ast = Parser::new().parse(r"[^a-z]").unwrap();
    let match_function = class_matcher(&ast).unwrap();
    assert!(!match_function.matches('a'));
    assert!(!match_function.matches('z'));
    assert!(match_function.matches('A'));
    assert!(match_function.matches('1'));
}

#[test]
fn match_function_test_match_function_negated_binary_op_class() {
    let ast = Parser::new().parse(r"[a-z&&[^aeiou]]").unwrap();
    let match_function = class_matcher(&ast).unwrap();
    assert!(!match_function.matches('a'));
    assert!(!match_function.matches('e'));
    assert!(match_function.matches('z'));
    assert!(!match_function.matches('1'));
}

#[test]
fn match_function_test_match_function_ascci_class() {
    let ast = Parser::new().parse(r"[[:alpha:]]").unwrap();
    let match_function = class_matcher(&ast).unwrap();
    assert!(match_function.matches('a'));
    assert!(match_function.matches('A'));
    assert!(match_function.matches('ä'));
    assert!(!match_function.matches('1'));
    assert!(!match_function.matches(' '));
}

#[test]
fn match_function_test_match_function_negated_ascii_class() {
    let ast = Parser::new().parse(r"[^[:alpha:]]").unwrap();
    let match_function = class_matcher(&ast).unwrap();
    assert!(!match_function.matches('a'));
    assert!(!match_function.matches('A'));
    assert!(!match_function.matches('ä'));
    assert!(match_function.matches('1'));
    assert!(match_function.matches(' '));
}

#[test]
fn match_function_test_match_function_empty() {
    let ast = Parser::new().parse(r"").unwrap();
    let match_function = class_matcher(&ast).unwrap();
    assert!(match_function.matches('a'));
    assert!(match_function.matches('A'));
    assert!(match_function.matches('1'));
    assert!(match_function.matches(' '));
}

#[test]
fn match_function_test_nested_classes() {
    let ast = Parser::new().parse(r"[x[^xyz]]").unwrap();
    let match_function = class_matcher(&ast).unwrap();
    assert!(match_function.matches('a'));
    assert!(match_function.matches('x'));
    assert!(match_function.matches('1'));
    assert!(match_function.matches(' '));
    assert!(!match_function.matches('y'));
    assert!(!match_function.matches('z'));
}

#[test]
fn match_function_test_subtraction() {
    let ast = Parser::new().parse(r"[0-9&&[^4]]").unwrap();
    let match_function = class_matcher(&ast).unwrap();
    assert!(match_function.matches('0'));
    assert!(match_function.matches('9'));
    assert!(!match_function.matches('4'));
    assert!(!match_function.matches('a'));
}

#[test]
fn match_function_test_direct_subtraction() {
    let ast = Parser::new().parse(r"[0-9--4]").unwrap();
    let match_function = class_matcher(&ast).unwrap();
    assert!(match_function.matches('0'));
    assert!(match_function.matches('9'));
    assert!(!match_function.matches('4'));
    assert!(!match_function.matches('a'));
}

#[test]
fn match_function_test_symmetric_difference() {
    let ast = Parser::new().parse(r"[a-g~~b-h]").unwrap();
    let match_function = class_matcher(&ast).unwrap();
    assert!(match_function.matches('a'));
    assert!(match_function.matches('h'));
    assert!(!match_function.matches('b'));
    assert!(!match_function.matches('z'));
}

#[test]
fn match_function_test_escaping() {
    let ast = Parser::new().parse(r"[\[\]]").unwrap();
    let match_function = class_matcher(&ast).unwrap();
    assert!(match_function.matches('['));
    assert!(match_function.matches(']'));
    assert!(!match_function.matches('a'));
    assert!(!match_function.matches('1'));
}

#[test]
fn match_function_test_empty_intersection() {
    let ast = Parser::new().parse(r"[a&&b]").unwrap();
    let match_function = class_matcher(&ast).unwrap();
    assert!(!match_function.matches('a'));
    assert!(!match_function.matches('b'));
    assert!(!match_function.matches('1'));
    assert!(!match_function.matches(' '));
}

#[test]
fn match_function_test_negated_subtraction() {
    let ast = Parser::new().parse(r"[^a--b]").unwrap();
    let match_function = class_matcher(&ast).unwrap();
    assert!(!match_function.matches('a'));
    assert!(match_function.matches('b'));
    assert!(match_function.matches('1'));
    assert!(match_function.matches(' '));
}

#[test]
fn match_function_test_named_classes() {
    let ast = Parser::new().parse(r"\p{XID_Start}").unwrap();
    let match_function = class_matcher(&ast).unwrap();
    assert!(match_function.matches('a'));
    assert!(match_function.matches('A'));
    assert!(!match_function.matches('1'));
    assert!(!match_function.matches(' '));

    let ast = Parser::new().parse(r"\p{XID_Continue}").unwrap();
    let match_function = class_matcher(&ast).unwrap();
    assert!(match_function.matches('a'));
    assert!(match_function.matches('A'));
    assert!(match_function.matches('1'));
    assert!(!match_function.matches(' '));
}

#[test]
fn match_function_test_evaluate_general_category() {
    // '_' is a connector punctuation (general category Pc).
    assert!(CharMatcher::Property(UcdProperty::ConnectorPunctuation).matches('_'));
    let ast = Parser::new().parse(r"\w").unwrap();
    let match_function = class_matcher(&ast).unwrap();
    assert!(match_function.matches('_'));
}
