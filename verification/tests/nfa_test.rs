//! Tests of the construction of NFAs from regular expressions.
use std::collections::BTreeSet;
use scnr::character_class::CharacterClassRegistry;
use scnr::nfa::Nfa;
use scnr::regex_ast::parse_regex_syntax;

/// Identifies a state or a character class by its number.
fn id(n: usize) -> usize {
    n
}

struct TestData {
    // Use pascal case for the name because the name is used also as dot file name.
    // Also, the name should be unique.
    name: &'static str,
    input: &'static str,
    expected_states: usize,
    expected_start_state: usize,
    expected_end_state: usize,
    expected_char_classes: usize,
}

const TEST_DATA: &[TestData] = &[
    TestData {
        name: "SingleCharacter1",
        input: "a",
        expected_states: 2,
        expected_start_state: 0,
        expected_end_state: 1,
        expected_char_classes: 1,
    },
    TestData {
        name: "Concatenation",
        input: "ab",
        expected_states: 4,
        expected_start_state: 0,
        expected_end_state: 3,
        expected_char_classes: 2,
    },
    TestData {
        name: "Alternation1",
        input: "a|b",
        expected_states: 6,
        expected_start_state: 4,
        expected_end_state: 5,
        expected_char_classes: 2,
    },
    TestData {
        name: "Repetition",
        input: "a*",
        expected_states: 4,
        expected_start_state: 2,
        expected_end_state: 3,
        expected_char_classes: 1,
    },
    TestData {
        name: "ZeroOrOne",
        input: "a?",
        expected_states: 3,
        expected_start_state: 2,
        expected_end_state: 1,
        expected_char_classes: 1,
    },
    TestData {
        name: "OneOrMore",
        input: "a+",
        expected_states: 4,
        expected_start_state: 2,
        expected_end_state: 3,
        expected_char_classes: 1,
    },
    TestData {
        name: "Complex1",
        input: "(a|b)*abb",
        expected_states: 14,
        expected_start_state: 6,
        expected_end_state: 13,
        expected_char_classes: 2,
    },
    TestData {
        name: "String",
        input: r"\u{0022}(\\[\u{0022}\\/bfnrt]|u[0-9a-fA-F]{4}|[^\u{0022}\\\u0000-\u001F])*\u{0022}",
        expected_states: 26,
        expected_start_state: 0,
        expected_end_state: 25,
        expected_char_classes: 6,
    },
    TestData {
        name: "Example1",
        input: "(A*B|AC)D",
        expected_states: 14,
        expected_start_state: 10,
        expected_end_state: 13,
        expected_char_classes: 4,
    },
];


#[test]
fn test_nfa_from_ast() {
    // Create an example AST
    let ast = parse_regex_syntax("a").unwrap();
    // Create a character class registry
    let mut char_class_registry = CharacterClassRegistry::new();

    // Convert the AST to an NFA
    let nfa: Nfa = Nfa::try_from_ast(ast, &mut char_class_registry).unwrap();

    // Add assertions here to validate the NFA
    assert_eq!(nfa.states.len(), 2);
    assert_eq!(nfa.start_state, 0);
    assert_eq!(nfa.end_state, 1);
}

#[test]
fn test_nfa_from_ast_concat() {
    // Create a character class registry
    let mut char_class_registry = CharacterClassRegistry::new();
    // Create an example AST and convert the AST to an NFA
    let nfa: Nfa =
        Nfa::try_from_ast(parse_regex_syntax("ab").unwrap(), &mut char_class_registry).unwrap();

    // Add assertions here to validate the NFA
    assert_eq!(nfa.states.len(), 4);
    assert_eq!(nfa.start_state, 0);
    assert_eq!(nfa.end_state, 3);
}

#[test]
fn test_nfa_concat() {
    // Create a character class registry
    let mut char_class_registry = CharacterClassRegistry::new();
    // Create two example ASTs and convert them to an NFAs
    let mut nfa1: Nfa =
        Nfa::try_from_ast(parse_regex_syntax("a").unwrap(), &mut char_class_registry).unwrap();
    let nfa2: Nfa =
        Nfa::try_from_ast(parse_regex_syntax("b").unwrap(), &mut char_class_registry).unwrap();
    nfa1.concat(nfa2);

    // Add assertions here to validate the NFA
    assert_eq!(nfa1.states.len(), 4);
    assert_eq!(nfa1.start_state, 0);
    assert_eq!(nfa1.end_state, 3);
}

#[test]
fn test_nfa_alternation() {
    // Create a character class registry
    let mut char_class_registry = CharacterClassRegistry::new();
    // Create two example ASTs and convert them to an NFAs
    let mut nfa1: Nfa =
        Nfa::try_from_ast(parse_regex_syntax("a").unwrap(), &mut char_class_registry).unwrap();
    let nfa2: Nfa =
        Nfa::try_from_ast(parse_regex_syntax("b").unwrap(), &mut char_class_registry).unwrap();
    nfa1.alternation(nfa2);

    // Add assertions here to validate the NFA
    assert_eq!(nfa1.states.len(), 6);
    assert_eq!(nfa1.start_state, 4);
    assert_eq!(nfa1.end_state, 5);
}

#[test]
fn test_nfa_repetition() {
    // Create a character class registry
    let mut char_class_registry = CharacterClassRegistry::new();
    // Create an example AST and convert the AST to an NFA
    let mut nfa: Nfa =
        Nfa::try_from_ast(parse_regex_syntax("a").unwrap(), &mut char_class_registry).unwrap();

    nfa.zero_or_more();

    // Add assertions here to validate the NFA
    assert_eq!(nfa.states.len(), 4);
    assert_eq!(nfa.start_state, 2);
    assert_eq!(nfa.end_state, 3);
}

#[test]
fn test_nfa_zero_or_one() {
    // Create a character class registry
    let mut char_class_registry = CharacterClassRegistry::new();
    // Create an example AST and convert the AST to an NFA
    let mut nfa: Nfa =
        Nfa::try_from_ast(parse_regex_syntax("a").unwrap(), &mut char_class_registry).unwrap();
    nfa.zero_or_one();

    // Add assertions here to validate the NFA
    assert_eq!(nfa.states.len(), 3);
    assert_eq!(nfa.start_state, 2);
    assert_eq!(nfa.end_state, 1);
}

#[test]
fn test_nfa_one_or_more() {
    // Create a character class registry
    let mut char_class_registry = CharacterClassRegistry::new();
    // Create an example AST and convert the AST to an NFA
    let mut nfa: Nfa =
        Nfa::try_from_ast(parse_regex_syntax("a").unwrap(), &mut char_class_registry).unwrap();
    nfa.one_or_more();

    // Add assertions here to validate the NFA
    assert_eq!(nfa.states.len(), 4);
    assert_eq!(nfa.start_state, 2);
    assert_eq!(nfa.end_state, 3);
}

#[test]
fn test_nfa_zero_or_more() {
    // Create a character class registry
    let mut char_class_registry = CharacterClassRegistry::new();
    // Create an example AST and convert the AST to an NFA
    let mut nfa: Nfa =
        Nfa::try_from_ast(parse_regex_syntax("a").unwrap(), &mut char_class_registry).unwrap();
    nfa.zero_or_more();

    // Add assertions here to validate the NFA
    assert_eq!(nfa.states.len(), 4);
    assert_eq!(nfa.start_state, 2);
    assert_eq!(nfa.end_state, 3);
}

#[test]
fn test_complex_nfa() {
    // Create a character class registry
    let mut char_class_registry = CharacterClassRegistry::new();
    // Create an example AST and convert the AST to an NFA
    let nfa: Nfa = Nfa::try_from_ast(
        parse_regex_syntax("(a|b)*abb").unwrap(),
        &mut char_class_registry,
    )
    .unwrap();

    // Add assertions here to validate the NFA
    assert_eq!(nfa.states.len(), 14);
    assert_eq!(nfa.start_state, 6);
    assert_eq!(nfa.end_state, 13);
}

#[test]
fn test_nfa_offset_states() {
    // Create a character class registry
    let mut char_class_registry = CharacterClassRegistry::new();
    // Create an example AST and convert the AST to an NFA
    let mut nfa: Nfa =
        Nfa::try_from_ast(parse_regex_syntax("a").unwrap(), &mut char_class_registry).unwrap();
    nfa.shift_ids(10);

    // Add assertions here to validate the NFA
    assert_eq!(nfa.states.len(), 2);
    assert_eq!(nfa.start_state, 10);
    assert_eq!(nfa.end_state, 11);
}

#[test]
fn test_nfa_repetition_at_least() {
    // Create a character class registry
    let mut char_class_registry = CharacterClassRegistry::new();
    // Create an example AST and convert the AST to an NFA
    let nfa: Nfa = Nfa::try_from_ast(
        parse_regex_syntax("a{3,}").unwrap(),
        &mut char_class_registry,
    )
    .unwrap();

    // Add assertions here to validate the NFA
    assert_eq!(nfa.states.len(), 10);
    assert_eq!(nfa.start_state, 0);
    assert_eq!(nfa.end_state, 9);
}

#[test]
fn test_nfa_repetition_bounded() {
    // Create a character class registry
    let mut char_class_registry = CharacterClassRegistry::new();
    // Create an example AST and convert the AST to an NFA
    let nfa: Nfa = Nfa::try_from_ast(
        parse_regex_syntax("a{3,5}").unwrap(),
        &mut char_class_registry,
    )
    .unwrap();

    // Add assertions here to validate the NFA
    assert_eq!(nfa.states.len(), 12);
    assert_eq!(nfa.start_state, 0);
    assert_eq!(nfa.end_state, 10);
}

#[test]
fn test_character_class_expression() {
    // Create a character class registry
    let mut char_class_registry = CharacterClassRegistry::new();
    // Create an example AST and convert the AST to an NFA
    let nfa: Nfa = Nfa::try_from_ast(
        parse_regex_syntax(r"[[:digit:]]").unwrap(),
        &mut char_class_registry,
    )
    .unwrap();

    // Add assertions here to validate the NFA
    assert_eq!(nfa.states.len(), 2);
    assert_eq!(nfa.start_state, 0);
    assert_eq!(nfa.end_state, 1);
}

#[test]
fn test_clousure_of_states() {
    // Create a character class registry
    let mut char_class_registry = CharacterClassRegistry::new();
    // Create an example AST and convert the AST to an NFA
    let nfa: Nfa = Nfa::try_from_ast(
        // SecondLastBitIs1
        parse_regex_syntax(r"(0|1)*1(0|1)").unwrap(),
        &mut char_class_registry,
    )
    .unwrap();

    // Calculate the epsilon closure of the start state
    let closure = nfa.epsilon_closure(nfa.start_state);

    // Validate the NFA closure
    assert_eq!(closure.len(), 7);
    assert_eq!(BTreeSet::<usize>::from_iter(closure.iter().cloned()), {
        let mut set = BTreeSet::new();
        set.insert(id(0));
        set.insert(id(2));
        set.insert(id(4));
        set.insert(id(5));
        set.insert(id(6));
        set.insert(id(7));
        set.insert(id(8));
        set
    });

    // Calculate the transitions on a character classes in the closure
    let matching_states = closure.iter().fold(BTreeSet::new(), |mut set, state| {
        for transition in nfa.states()[*state].transitions() {
            set.insert((transition.char_class(), transition.target_state()));
        }
        set
    });

    // Validate the transitions from the closure of the start state
    assert_eq!(matching_states.len(), 3);
    assert_eq!(matching_states, {
        let mut set = BTreeSet::new();
        set.insert((id(0), id(1)));
        set.insert((id(1), id(3)));
        set.insert((id(1), id(9)));
        set
    });

    // Calculate the epsilon closure of each target state of the transitions
    let closures = matching_states.iter().fold(
        Vec::<(usize, BTreeSet<usize>)>::new(),
        |mut set, (char_class, state)| {
            let closure = nfa.epsilon_closure(*state);
            set.push((*char_class, BTreeSet::from_iter(closure.iter().cloned())));
            set
        },
    );

    println!("{:?}", closures);

    // Validate the epsilon closures of the target states
    assert_eq!(closures.len(), 3);
    assert_eq!(closures, {
        let mut vec = Vec::new();
        vec.push((id(0), {
            BTreeSet::from_iter(vec![
                id(0),
                id(1),
                id(2),
                id(4),
                id(5),
                id(7),
                id(8),
            ])
        }));
        vec.push((id(1), {
            BTreeSet::from_iter(vec![
                id(0),
                id(2),
                id(3),
                id(4),
                id(5),
                id(7),
                id(8),
            ])
        }));
        vec.push((id(1), {
            BTreeSet::from_iter(vec![
                id(9),
                id(10),
                id(12),
                id(14),
            ])
        }));
        vec
    });

    // Calculate the transitions on a character classes in the closures
    let matching_states = closures
        .iter()
        .fold(Vec::new(), |mut vec, (char_class, closure)| {
            for state in closure {
                for transition in nfa.states()[*state].transitions() {
                    vec.push((
                        *char_class,
                        transition.char_class(),
                        transition.target_state(),
                    ));
                }
            }
            vec
        });

    // Validate the transitions from the closures of the target states
    assert_eq!(matching_states.len(), 8);
    assert_eq!(
        BTreeSet::<(usize, usize, usize)>::from_iter(
            matching_states.iter().cloned()
        ),
        {
            let mut set = BTreeSet::new();
            set.insert((id(0), id(0), id(1)));
            set.insert((id(0), id(1), id(3)));
            set.insert((id(0), id(1), id(9)));
            set.insert((id(1), id(0), id(1)));
            set.insert((id(1), id(1), id(3)));
            set.insert((id(1), id(0), id(11)));
            set.insert((id(1), id(1), id(9)));
            set.insert((id(1), id(1), id(13)));
            set
        }
    );
}

#[test]
fn test_nfa_repetition_non_greedy() {
    // Create a character class registry
    let mut char_class_registry = CharacterClassRegistry::new();
    // Create an example AST and convert the AST to an NFA
    let result =
        Nfa::try_from_ast(parse_regex_syntax("a*?").unwrap(), &mut char_class_registry);

    assert!(result.is_err());
    assert!(result.unwrap_err().to_string().contains("Non-greedy"));

    // Create a character class registry
    let mut char_class_registry = CharacterClassRegistry::new();
    // Create an example AST and convert the AST to an NFA
    let result =
        Nfa::try_from_ast(parse_regex_syntax("a+?").unwrap(), &mut char_class_registry);

    assert!(result.is_err());
    assert!(result.unwrap_err().to_string().contains("Non-greedy"));
}

#[test]
fn test_try_from_ast() {
    for data in TEST_DATA.iter() {
        let mut char_class_registry = CharacterClassRegistry::new();
        let nfa: Nfa = Nfa::try_from_ast(
            parse_regex_syntax(data.input).unwrap(),
            &mut char_class_registry,
        )
        .unwrap();

        assert_eq!(
            nfa.states.len(),
            data.expected_states,
            "expected state count: {}:{}",
            data.name,
            data.input
        );
        assert_eq!(
            nfa.start_state,
            data.expected_start_state,
            "expected start state: {}:{}",
            data.name,
            data.input
        );
        assert_eq!(
            nfa.end_state,
            data.expected_end_state,
            "expected end state: {}:{}",
            data.name,
            data.input
        );
        assert_eq!(
            char_class_registry.len(),
            data.expected_char_classes,
            "expected char classes: {}:{}",
            data.name,
            data.input
        );
    }
}
