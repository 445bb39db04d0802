//! Scanner modes: named sets of patterns with the mode transitions their token types trigger.
use vstd::prelude::*;
use crate::pattern::{pattern_parses, Pattern};

verus! {

/// The token types of the transitions strictly increase.
pub open spec fn transitions_sorted(ts: Seq<(usize, usize)>) -> bool {
    forall|i: int, j: int| 0 <= i < j < ts.len() ==> #[trigger] ts[i].0 < #[trigger] ts[j].0
}

/// The two patterns have the same regular expression, token type and lookahead.
pub open spec fn same_pattern(a: Pattern, b: Pattern) -> bool {
    &&& a.spec_pattern() == b.spec_pattern()
    &&& a.spec_token_type() == b.spec_token_type()
    &&& a.spec_lookahead() == b.spec_lookahead()
}

/// The two scanner modes have the same name, transitions and patterns.
pub open spec fn same_mode(a: ScannerMode, b: ScannerMode) -> bool {
    &&& a.name@ == b.name@
    &&& a.transitions@ == b.transitions@
    &&& a.patterns@.len() == b.patterns@.len()
    &&& forall|i: int| 0 <= i < a.patterns@.len() ==> same_pattern(#[trigger] a.patterns@[i], b.patterns@[i])
}

/// A scanner mode that can be used to scan specific parts of the input.
/// The contained data is used to create a scanner mode that can be used to scan the input.
#[derive(Debug, Clone, PartialEq, Eq)]
pub struct ScannerMode {
    /// The name of the scanner mode.
    pub name: String,
    /// The regular expressions that are valid token types in this mode, bundled with their token
    /// type numbers.
    /// The priorities of the patterns are determined by their order in the vector. Lower indices
    /// have higher priority if multiple patterns match the input and have the same length.
    pub patterns: Vec<Pattern>,
    /// The transitions between the scanner modes triggered by a token type number.
    /// The entries are tuples of the token type numbers and the new scanner mode index and are
    /// sorted by token type number.
    pub transitions: Vec<(usize, usize)>,
}

impl ScannerMode {
    /// Creates a new scanner mode with the given name, patterns and mode transitions.
    ///
    /// The transitions are pairs of a token type number and the index of the scanner mode to
    /// switch to after a token of that type; they must be sorted by token type number. The
    /// index of a scanner mode is determined by the order in which the modes are added to the
    /// scanner.
    pub fn new(name: &str, patterns: Vec<Pattern>, mode_transitions: Vec<(usize, usize)>) -> (r: Self)
        requires
            transitions_sorted(mode_transitions@),
        ensures
            r.name@ == name@,
            r.patterns@ == patterns@,
            r.transitions@ == mode_transitions@,
    {
        Self { name: name.to_owned(), patterns, transitions: mode_transitions }
    }

    /// A copy of the scanner mode.
    pub fn duplicate(&self) -> (r: Self)
        ensures
            same_mode(r, *self),
    {
        let mut patterns: Vec<Pattern> = Vec::new();
        let mut i: usize = 0;
        while i < self.patterns.len()
            invariant
                i <= self.patterns@.len(),
                patterns@.len() == i,
                forall|j: int| 0 <= j < i ==> same_pattern(#[trigger] patterns@[j], self.patterns@[j]),
            decreases self.patterns@.len() - i,
        {
            patterns.push(self.patterns[i].duplicate());
            i = i + 1;
        }
        let mut transitions: Vec<(usize, usize)> = Vec::new();
        let mut k: usize = 0;
        while k < self.transitions.len()
            invariant
                k <= self.transitions@.len(),
                transitions@ == self.transitions@.take(k as int),
            decreases self.transitions@.len() - k,
        {
            transitions.push(self.transitions[k]);
            k = k + 1;
            assert(transitions@ =~= self.transitions@.take(k as int));
        }
        assert(transitions@ =~= self.transitions@);
        Self { name: self.name.clone(), patterns, transitions }
    }

    /// Returns the name of the scanner mode.
    pub fn name(&self) -> (r: &str)
        ensures
            r@ == self.name@,
    {
        self.name.as_str()
    }
}

/// No mode has a pattern.
pub open spec fn modes_without_patterns(modes: Seq<ScannerMode>) -> bool {
    forall|i: int| 0 <= i < modes.len() ==> (#[trigger] modes[i]).patterns@.len() == 0
}

/// `regex_syntax` parses the regular expressions of all patterns of all modes, with their
/// lookaheads (see [pattern_parses]).
pub open spec fn modes_parse(modes: Seq<ScannerMode>) -> bool {
    forall|i: int, k: int| 0 <= i < modes.len() && 0 <= k < modes[i].patterns@.len()
        ==> pattern_parses(#[trigger] modes[i].patterns@[k])
}

} // verus!
