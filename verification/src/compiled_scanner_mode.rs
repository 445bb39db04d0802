//! Compiled scanner modes: the automaton of the patterns of a mode and its mode transitions.
use vstd::prelude::*;
use crate::character_class::CharacterClassRegistry;
use crate::compiled_nfa::{compiled_from, patterns_from_trees, same_polarity, CompiledNfa};
use crate::errors::ScnrError;
use crate::nfa::{keys_extend, registry_grew};
use crate::pattern::pattern_parses;
use crate::scanner_mode::{transitions_sorted, ScannerMode};

verus! {

/// The mode the transitions switch to after a token of type `t`: the transitions are searched
/// in order up to the first one whose token type is not below `t`; that one gives the mode if
/// its token type is `t`.
pub open spec fn transition_lookup(ts: Seq<(usize, usize)>, t: usize) -> Option<usize>
    decreases ts.len(),
{
    if ts.len() == 0 {
        None
    } else if t < ts[0].0 {
        None
    } else if t == ts[0].0 {
        Some(ts[0].1)
    } else {
        transition_lookup(ts.drop_first(), t)
    }
}

/// For transitions sorted by token type, the lookup finds exactly the transition of the token
/// type: it gives a mode if and only if a transition for the token type is listed, and that
/// transition's mode.
pub proof fn lemma_transition_lookup_sorted(ts: Seq<(usize, usize)>, t: usize)
    requires
        transitions_sorted(ts),
    ensures
        transition_lookup(ts, t) is Some <==> exists|i: int| 0 <= i < ts.len() && #[trigger] ts[i].0 == t,
        forall|i: int| 0 <= i < ts.len() && #[trigger] ts[i].0 == t ==> transition_lookup(ts, t) == Some(ts[i].1),
    decreases ts.len(),
{
    if ts.len() > 0 {
        let rest = ts.drop_first();
        assert(transitions_sorted(rest)) by {
            assert forall|i: int, j: int| 0 <= i < j < rest.len() implies #[trigger] rest[i].0 < #[trigger] rest[j].0 by {
                assert(rest[i] == ts[i + 1] && rest[j] == ts[j + 1]);
            }
        }
        lemma_transition_lookup_sorted(rest, t);
        if t < ts[0].0 {
            assert forall|i: int| 0 <= i < ts.len() implies #[trigger] ts[i].0 != t by {
                if i > 0 {
                    assert(ts[0].0 < ts[i].0);
                }
            }
        } else if t == ts[0].0 {
            assert forall|i: int| 0 <= i < ts.len() && #[trigger] ts[i].0 == t implies i == 0 by {
                if i > 0 {
                    assert(ts[0].0 < ts[i].0);
                }
            }
        } else {
            assert forall|i: int| 0 < i < ts.len() implies #[trigger] ts[i] == rest[i - 1] by {}
            if exists|i: int| 0 <= i < ts.len() && #[trigger] ts[i].0 == t {
                let i = choose|i: int| 0 <= i < ts.len() && #[trigger] ts[i].0 == t;
                assert(rest[i - 1].0 == t);
            }
            if exists|i: int| 0 <= i < rest.len() && #[trigger] rest[i].0 == t {
                let i = choose|i: int| 0 <= i < rest.len() && #[trigger] rest[i].0 == t;
                assert(ts[i + 1].0 == t);
            }
            assert forall|i: int| 0 <= i < ts.len() && #[trigger] ts[i].0 == t implies transition_lookup(ts, t) == Some(ts[i].1) by {
                assert(rest[i - 1].0 == t);
            }
        }
    }
}

/// A compiled scanner mode that can be used to scan a string.
#[derive(Debug, Clone)]
pub struct CompiledScannerMode {
    /// The name of the scanner mode.
    pub name: String,
    /// The automaton of the patterns of this mode. The priorities of the patterns are
    /// determined by their order: lower indices have higher priority if multiple patterns match
    /// the input and have the same length.
    pub nfa: CompiledNfa,
    /// The transitions to other modes as pairs of token type and mode index.
    pub transitions: Vec<(usize, usize)>,
}

/// The compiled mode has the name and transitions of the scanner mode, and its compiled NFA
/// has the regular expressions, token types and lookahead polarities of the mode's patterns in
/// their order (see [compiled_from]).
pub open spec fn mode_compiled_from(c: CompiledScannerMode, m: ScannerMode) -> bool {
    &&& c.name@ == m.name@
    &&& c.transitions@ == m.transitions@
    &&& compiled_from(c.nfa, m.patterns@)
}

impl CompiledScannerMode {
    /// Compiles a scanner mode, registering the character classes of its patterns.
    pub fn try_from_scanner_mode(
        scanner_mode: ScannerMode,
        character_class_registry: &mut CharacterClassRegistry,
    ) -> (r: Result<Self, ScnrError>)
        requires
            old(character_class_registry).wf(),
        ensures
            final(character_class_registry).wf(),
            keys_extend(old(character_class_registry).keys(), final(character_class_registry).keys()),
            registry_grew(*old(character_class_registry), *final(character_class_registry)),
            r matches Ok(c) ==> patterns_from_trees(c.nfa, final(character_class_registry).keys(), final(character_class_registry).class_matchers()),
            r is Ok ==> forall|k: int| 0 <= k < scanner_mode.patterns@.len() ==> pattern_parses(#[trigger] scanner_mode.patterns@[k]),
            scanner_mode.patterns@.len() == 0 ==> r is Ok,
            r matches Ok(c) ==> mode_compiled_from(c, scanner_mode),
            r matches Ok(c) ==> {
                &&& c.name@ == scanner_mode.name@
                &&& c.transitions@ == scanner_mode.transitions@
                &&& c.nfa.wf()
                &&& c.nfa.terminal_ids@.len() == scanner_mode.patterns@.len()
                &&& forall|k: int| 0 <= k < scanner_mode.patterns@.len() ==> {
                    &&& #[trigger] c.nfa.terminal_ids@[k] == scanner_mode.patterns@[k].spec_token_type()
                    &&& same_polarity(c.nfa.lookahead_views()[k], scanner_mode.patterns@[k].spec_lookahead())
                }
            },
    {
        let ScannerMode { name, patterns, transitions } = scanner_mode;
        let ps = patterns.as_slice();
        assert(ps@ == scanner_mode.patterns@);
        let nfa = match CompiledNfa::try_from_patterns(ps, character_class_registry) {
            Ok(nfa) => nfa,
            Err(e) => {
                return Err(e);
            },
        };
        let r = Self { name, nfa, transitions };
        Ok(r)
    }

    /// The index of the scanner mode to switch to after a token of the given type, if any.
    pub fn has_transition(&self, token_type: usize) -> (r: Option<usize>)
        ensures
            r == transition_lookup(self.transitions@, token_type),
    {
        let ghost ts = self.transitions@;
        assert(ts.subrange(0, ts.len() as int) =~= ts);
        let mut i: usize = 0;
        while i < self.transitions.len()
            invariant
                ts == self.transitions@,
                i <= ts.len(),
                transition_lookup(ts, token_type) == transition_lookup(ts.subrange(i as int, ts.len() as int), token_type),
            decreases ts.len() - i,
        {
            let (tok_type, scanner) = self.transitions[i];
            let ghost rest = ts.subrange(i as int, ts.len() as int);
            assert(rest[0] == (tok_type, scanner));
            if token_type < tok_type {
                return None;
            } else if token_type == tok_type {
                return Some(scanner);
            }
            assert(rest.drop_first() =~= ts.subrange(i + 1, ts.len() as int));
            i = i + 1;
        }
        assert(ts.subrange(i as int, ts.len() as int).len() == 0);
        None
    }
}

} // verus!
