# scnr

A lexical scanner for programming languages, built from regular expressions and verified with
Verus.

A scanner consists of scanner modes. Each mode holds patterns (regular expressions with token
types, optionally with a positive or negative lookahead) and transitions that switch to another
mode after a token of a given type. Scanning the input yields non-overlapping matches: at each
position the longest match of the patterns of the current mode, ties going to the pattern that
comes first.

## Layout

- `src/` is the verified library.
  - `regex_ast.rs` reads the syntax trees that `regex_syntax` parses, one node at a time.
  - `unicode_props.rs` asks `seshat` and `char`'s methods for the Unicode properties of a
    character.
  - `char_matcher.rs` converts a character class into a tree of plain values, defines the
    characters of such a tree and builds a predicate on characters that matches exactly those.
    `character_class.rs` numbers the classes of a scanner and splits them into elementary
    intervals, each lying wholly inside or outside every class.
  - `regex_tree.rs` converts a syntax tree into a tree of plain values and defines the words
    such a tree reads. What is proved starts from that tree: the conversion itself walks the
    opaque syntax tree node by node, and nothing proved ties the tree to the text of the
    pattern beyond the parser's verdict on it.
  - `nfa.rs` builds an NFA from a regular expression tree by Thompson's construction and proves
    that it reads exactly the words of the tree; `multi_pattern_nfa.rs` joins the NFAs of the
    patterns of a mode. `nfa_language.rs` defines the words an NFA accepts and proves what each
    construction step does to them; `tree_language.rs` carries this over to repetitions,
    alternatives and sequences of trees.
  - `compiled_nfa.rs` turns them into an automaton with precomputed epsilon closures and finds
    the longest match at a position; `automaton_language.rs` proves that a pattern matches
    exactly the words its NFA accepts, and so the words of the regular expression tree its NFA
    was built from; `matching_state.rs` holds the state of a match.
  - `compiled_dfa.rs` makes the compiled automaton deterministic by subset construction over
    the elementary intervals and proves that it accepts what the compiled NFA accepts and
    finds the same longest match.
  - `scanner_mode.rs`, `compiled_scanner_mode.rs`, `scanner_nfa_impl.rs`, `find_matches_impl.rs`,
    `find_matches.rs`, `with_positions.rs`, `scanner.rs` and `scanner_builder.rs` make up the
    scanner and its iterators; `span.rs`, `position.rs`, `match_type.rs`, `pattern.rs`,
    `errors.rs`, `text.rs`, `graph.rs` and `sorted.rs` hold the data types and helpers.
- `app/` holds what stays outside the verified library: serializable copies of the data types
  and the rendering of the automata as graphviz dot files.
- `tests/` holds the tests.

## Not covered

The scanner runs the compiled NFA; the deterministic automaton stands beside it and is not
minimised. Not part of this crate: a code generator and macros built on the deterministic
automaton, and an engine on `regex_syntax`'s HIR.
