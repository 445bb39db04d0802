//! A lexical scanner for programming languages built from regular expressions.
use vstd::prelude::*;

pub mod span;
pub mod text;
pub mod position;
pub use position::{Position, PositionProvider};
pub mod errors;
pub use errors::{DfaError, Result, ScnrError, ScnrErrorKind};
pub mod pattern;
pub use pattern::{Lookahead, Pattern};
pub mod graph;
pub mod sorted;
pub mod unicode_props;
pub mod char_matcher;
pub mod character_class;
pub mod regex_ast;
pub mod regex_tree;
pub mod nfa;
pub mod nfa_language;
pub mod tree_language;
pub mod multi_pattern_nfa;
pub mod compiled_nfa;
pub mod compiled_dfa;
pub mod automaton_language;
pub mod matching_state;
pub mod scanner_mode;
pub use scanner_mode::ScannerMode;
pub mod compiled_scanner_mode;
pub mod scanner_nfa_impl;
pub mod find_matches_impl;
pub mod find_matches;
pub use find_matches::{FindMatches, PeekResult};
pub mod with_positions;
pub use with_positions::{MatchExtIterator, WithPositions};
pub mod scanner;
pub use scanner::{Scanner, ScannerModeSwitcher};
pub mod scanner_builder;
pub use scanner_builder::{ScannerBuilder, SimpleScannerBuilder};
pub mod match_type;
pub use match_type::{Match, MatchExt};
pub use span::Span;

verus! {

} // verus!
