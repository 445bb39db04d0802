//! The scanner implementation: the compiled scanner modes, their common character classes and
//! the current mode, which the matches of tokens with a mode transition switch.
use vstd::prelude::*;
use std::sync::Arc;
use crate::char_matcher::CharMatcher;
use crate::automaton_language::{automaton_tree, lemma_lookahead_reads_tree, lemma_match_reads_tree};
use crate::character_class::{lemma_registry_extends, CharacterClassRegistry, KeyView};
use crate::compiled_nfa::{
    automaton_from_trees, is_longest_match, lemma_patterns_from_trees_cn_extend, match_valid, patterns_from_trees,
    LookaheadView,
};
use crate::regex_tree::{tree_accepts, tree_refusal};
use crate::compiled_scanner_mode::{mode_compiled_from, transition_lookup, CompiledScannerMode};
use crate::errors::ScnrError;
use crate::match_type::Match;
use crate::pattern::pattern_parses;
use crate::scanner_mode::{modes_parse, modes_without_patterns, ScannerMode};
use crate::span::Span;
use crate::text::{byte_offset, lemma_byte_offset_mono};

verus! {

/// Another handle to the shared value (std's `Arc::clone`); it points to the same value.
#[verifier::external_body]
fn share<T>(a: &Arc<T>) -> (r: Arc<T>)
    ensures
        r == *a,
{
    Arc::clone(a)
}

/// `offsets` holds the byte offset of every character of `input` and the byte length of all.
pub open spec fn byte_offsets_of(input: Seq<char>, offsets: Seq<usize>) -> bool {
    &&& offsets.len() == input.len() + 1
    &&& forall|i: int| 0 <= i <= input.len() ==> #[trigger] offsets[i] == byte_offset(input, i)
}

/// `r` is the match a scanner mode finds at the character position `pos`: the longest match of
/// its patterns there, with the token type of the pattern and the byte span of the characters.
pub open spec fn mode_match(
    mode: CompiledScannerMode,
    cls: Seq<CharMatcher>,
    input: Seq<char>,
    offsets: Seq<usize>,
    pos: int,
    r: Option<Match>,
) -> bool {
    match r {
        None => is_longest_match(mode.nfa.automaton@, mode.nfa.lookahead_views(), cls, input, pos, None),
        Some(m) => exists|p: usize, k: usize|
            #[trigger] is_longest_match(mode.nfa.automaton@, mode.nfa.lookahead_views(), cls, input, pos, Some((p, k)))
                && p < mode.nfa.terminal_ids@.len()
                && m.spec_token_type() == mode.nfa.terminal_ids@[p as int]
                && m.spec_span() == (Span { start: offsets[pos], end: offsets[pos + k] }),
    }
}

/// The mode after a match: the target of the transition of the match's token type if the
/// current mode has one, else the current mode.
pub open spec fn mode_after(mode: CompiledScannerMode, current: usize, r: Option<Match>) -> usize {
    match r {
        Some(m) => match transition_lookup(mode.transitions@, m.spec_token_type()) {
            Some(next) => next,
            None => current,
        },
        None => current,
    }
}

/// The patterns of every mode are built from regular expression trees under the registry of
/// `keys` and `cls`.
#[verifier::opaque]
pub open spec fn modes_from_trees(modes: Seq<CompiledScannerMode>, keys: Seq<KeyView>, cls: Seq<CharMatcher>) -> bool {
    forall|i: int| 0 <= i < modes.len() ==> patterns_from_trees(#[trigger] modes[i].nfa, keys, cls)
}

/// The lookahead holds at `end`, in terms of its regular expression tree: a positive lookahead
/// where its tree reads a non-empty word that the input continues with there, a negative one
/// where it reads none.
pub open spec fn lookahead_tree_ok(la: LookaheadView, keys: Seq<KeyView>, cls: Seq<CharMatcher>, input: Seq<char>, end: int) -> bool {
    match la {
        None => true,
        Some((positive, a)) => (exists|j: nat|
            1 <= j && end + j <= input.len()
                && #[trigger] tree_accepts(automaton_tree(a, 1, keys, cls, 0), keys, cls, input.subrange(end, end + j))) == positive,
    }
}

/// The scanner implementation.
#[derive(Debug, Clone)]
pub struct ScannerNfaImpl {
    /// The character classes of all scanner modes.
    pub character_classes: Arc<CharacterClassRegistry>,
    /// The compiled scanner modes.
    pub scanner_modes: Arc<Vec<CompiledScannerMode>>,
    /// The current scanner mode.
    current_mode: usize,
}

impl ScannerNfaImpl {
    /// The current scanner mode.
    pub closed spec fn spec_current_mode(&self) -> usize {
        self.current_mode
    }

    /// The character ranges of the registered character classes.
    pub closed spec fn classes(&self) -> Seq<CharMatcher> {
        self.character_classes.class_matchers()
    }

    /// The keys of the registered character classes.
    pub closed spec fn class_keys(&self) -> Seq<KeyView> {
        self.character_classes.keys()
    }

    /// The compiled scanner modes.
    pub closed spec fn modes(&self) -> Seq<CompiledScannerMode> {
        self.scanner_modes@
    }

    /// The registry and the automata of all modes are well formed, and the patterns of every
    /// mode are built from regular expression trees under the registry.
    pub closed spec fn wf(&self) -> bool {
        &&& self.character_classes.wf()
        &&& forall|i: int| 0 <= i < self.modes().len() ==> (#[trigger] self.modes()[i]).nfa.wf()
        &&& modes_from_trees(self.modes(), self.class_keys(), self.classes())
    }

    /// The registry of a well-formed scanner has a matcher for each key and no key twice, and the
    /// patterns of its modes are built from trees under it.
    pub proof fn lemma_registry(&self)
        requires
            self.wf(),
        ensures
            self.class_keys().len() == self.classes().len(),
            self.class_keys().no_duplicates(),
            forall|i: int| 0 <= i < self.modes().len() ==> patterns_from_trees(#[trigger] self.modes()[i].nfa, self.class_keys(), self.classes()),
    {
        self.character_classes.lemma_views();
        reveal(modes_from_trees);
    }

    /// Pattern `p` of mode `i` matches the `k` characters of the input from `pos` on exactly when
    /// the regular expression tree of the pattern reads them and the lookahead of the pattern
    /// holds behind them (see [lookahead_tree_ok]).
    pub proof fn lemma_mode_match_reads_tree(&self, i: int, input: Seq<char>, pos: int, k: nat, p: int)
        requires
            self.wf(),
            0 <= i < self.modes().len(),
            0 <= pos,
            0 <= p < self.modes()[i].nfa.terminal_ids@.len(),
        ensures
            tree_refusal(automaton_tree(self.modes()[i].nfa.automaton@, self.modes()[i].nfa.terminal_ids@.len(), self.class_keys(), self.classes(), p)) is None,
            match_valid(self.modes()[i].nfa.automaton@, self.modes()[i].nfa.lookahead_views(), self.classes(), input, pos, k, p) <==> {
                &&& 1 <= k
                &&& pos + k <= input.len()
                &&& tree_accepts(
                    automaton_tree(self.modes()[i].nfa.automaton@, self.modes()[i].nfa.terminal_ids@.len(), self.class_keys(), self.classes(), p),
                    self.class_keys(),
                    self.classes(),
                    input.subrange(pos, pos + k),
                )
                &&& lookahead_tree_ok(self.modes()[i].nfa.lookahead_views()[p], self.class_keys(), self.classes(), input, pos + k)
            },
    {
        let keys = self.class_keys();
        let cls = self.classes();
        self.lemma_registry();
        lemma_registry_extends(keys, cls, keys, cls, keys, cls);
        let nfa = self.modes()[i].nfa;
        let las = nfa.lookahead_views();
        assert(patterns_from_trees(nfa, keys, cls));
        assert(las.len() == nfa.terminal_ids@.len());
        lemma_match_reads_tree(nfa.automaton@, nfa.terminal_ids@.len(), las, keys, cls, keys, cls, input, pos, k, p);
        match las[p] {
            None => {},
            Some((positive, a)) => {
                assert(automaton_from_trees(a, 1, keys, cls));
                lemma_lookahead_reads_tree(a, keys, cls, keys, cls, input, pos + k);
            },
        }
    }

    /// The number of scanner modes.
    pub fn mode_count(&self) -> (r: usize)
        ensures
            r == self.modes().len(),
    {
        self.scanner_modes.len()
    }

    /// The current mode is one of the scanner modes.
    pub open spec fn mode_valid(&self) -> bool {
        self.spec_current_mode() < self.modes().len()
    }

    /// Compiles the scanner modes; all modes share one registry of character classes. The
    /// current mode is the first one.
    pub fn try_from(scanner_modes: Vec<ScannerMode>) -> (r: Result<Self, ScnrError>)
        ensures
            r is Ok ==> modes_parse(scanner_modes@),
            modes_without_patterns(scanner_modes@) ==> r is Ok,
            r matches Ok(s) ==> {
                &&& s.wf()
                &&& s.spec_current_mode() == 0
                &&& s.modes().len() == scanner_modes@.len()
                &&& forall|i: int| 0 <= i < scanner_modes@.len() ==> mode_compiled_from(#[trigger] s.modes()[i], scanner_modes@[i])
            },
    {
        let mut character_class_registry = CharacterClassRegistry::new();
        let mut compiled_scanner_modes: Vec<CompiledScannerMode> = Vec::new();
        let ghost modes = scanner_modes@;
        for scanner_mode in it: scanner_modes
            invariant
                it.seq() == modes,
                character_class_registry.wf(),
                compiled_scanner_modes@.len() == it.index(),
                forall|i: int| 0 <= i < compiled_scanner_modes@.len() ==> mode_compiled_from(#[trigger] compiled_scanner_modes@[i], modes[i]),
                forall|i: int| 0 <= i < compiled_scanner_modes@.len() ==> patterns_from_trees(
                    #[trigger] compiled_scanner_modes@[i].nfa, character_class_registry.keys(), character_class_registry.class_matchers()),
                forall|i: int, k: int| 0 <= i < compiled_scanner_modes@.len() && 0 <= k < modes[i].patterns@.len()
                    ==> pattern_parses(#[trigger] modes[i].patterns@[k]),
        {
            let ghost keys_a = character_class_registry.keys();
            let ghost cls_a = character_class_registry.class_matchers();
            let ghost before = compiled_scanner_modes@;
            let compiled_scanner_mode = CompiledScannerMode::try_from_scanner_mode(scanner_mode, &mut character_class_registry)?;
            compiled_scanner_modes.push(compiled_scanner_mode);
            proof {
                let keys_b = character_class_registry.keys();
                let cls_b = character_class_registry.class_matchers();
                assert forall|i: int| 0 <= i < compiled_scanner_modes@.len() implies patterns_from_trees(
                    #[trigger] compiled_scanner_modes@[i].nfa, keys_b, cls_b) by {
                    if i < before.len() {
                        assert(compiled_scanner_modes@[i] == before[i]);
                        lemma_patterns_from_trees_cn_extend(before[i].nfa, keys_a, cls_a, keys_b, cls_b);
                    }
                }
            }
        }
        let r = Self {
            character_classes: Arc::new(character_class_registry),
            scanner_modes: Arc::new(compiled_scanner_modes),
            current_mode: 0,
        };
        proof {
            reveal(modes_from_trees);
        }
        Ok(r)
    }

    /// Another scanner implementation with the same compiled modes and current mode; the
    /// compiled modes are shared, not copied.
    pub fn duplicate(&self) -> (r: Self)
        ensures
            r.classes() == self.classes(),
            r.modes() == self.modes(),
            r.spec_current_mode() == self.spec_current_mode(),
            self.wf() ==> r.wf(),
    {
        Self {
            character_classes: share(&self.character_classes),
            scanner_modes: share(&self.scanner_modes),
            current_mode: self.current_mode,
        }
    }

    /// Whether the character class with the given id contains the character.
    pub fn match_char_class(&self, char_class: usize, c: char) -> (r: bool)
        ensures
            r == (char_class < self.classes().len()
                && crate::char_matcher::matcher_has(self.classes()[char_class as int], c)),
    {
        self.character_classes.matches(char_class, c)
    }

    /// Sets the current mode to the first one.
    pub fn reset(&mut self)
        ensures
            final(self).spec_current_mode() == 0,
            final(self).classes() == old(self).classes(),
            final(self).modes() == old(self).modes(),
            old(self).wf() ==> final(self).wf(),
            final(self).mode_valid() == (final(self).modes().len() > 0),
    {
        self.current_mode = 0;
    }

    /// Searches the longest match at the character position `pos` of the input in the current
    /// mode, without switching modes. `offsets` are the byte offsets of the characters.
    pub fn peek_from(&self, input: &Vec<char>, offsets: &Vec<usize>, pos: usize) -> (r: Option<Match>)
        requires
            self.wf(),
            self.mode_valid(),
            pos <= input@.len(),
            byte_offsets_of(input@, offsets@),
        ensures
            mode_match(self.modes()[self.spec_current_mode() as int], self.classes(), input@, offsets@, pos as int, r),
            r matches Some(m) ==> offsets@[pos as int] == m.spec_span().start < m.spec_span().end <= offsets@[input@.len() as int],
    {
        let mode = &self.scanner_modes[self.current_mode];
        assert(mode.nfa.wf());
        let found = mode.nfa.find_from(&self.character_classes, input, pos);
        let n = input.len();
        match found {
            None => None,
            Some((p, k)) => {
                assert(crate::compiled_nfa::match_valid(mode.nfa.automaton@, mode.nfa.lookahead_views(), self.classes(), input@, pos as int, k as nat, p as int));
                assert(pos + k <= n);
                proof {
                    lemma_byte_offset_mono(input@, pos as int, pos + k);
                    lemma_byte_offset_mono(input@, pos + k, input@.len() as int);
                }
                let m = Match::new(mode.nfa.terminal_ids[p], Span::new(offsets[pos], offsets[pos + k]));
                Some(m)
            },
        }
    }

    /// Searches the longest match at the character position `pos` of the input in the current
    /// mode; a match whose token type has a transition in the current mode switches to the
    /// transition's mode. `offsets` are the byte offsets of the characters.
    pub fn find_from(&mut self, input: &Vec<char>, offsets: &Vec<usize>, pos: usize) -> (r: Option<Match>)
        requires
            old(self).wf(),
            old(self).mode_valid(),
            pos <= input@.len(),
            byte_offsets_of(input@, offsets@),
        ensures
            mode_match(old(self).modes()[old(self).spec_current_mode() as int], old(self).classes(), input@, offsets@, pos as int, r),
            r matches Some(m) ==> offsets@[pos as int] == m.spec_span().start < m.spec_span().end <= offsets@[input@.len() as int],
            final(self).spec_current_mode() == mode_after(old(self).modes()[old(self).spec_current_mode() as int], old(self).spec_current_mode(), r),
            final(self).classes() == old(self).classes(),
            final(self).modes() == old(self).modes(),
            final(self).wf(),
            final(self).mode_valid() == (final(self).spec_current_mode() < final(self).modes().len()),
    {
        let r = self.peek_from(input, offsets, pos);
        match r {
            Some(m) => {
                self.execute_possible_mode_switch(&m);
            },
            None => {},
        }
        r
    }

    /// Switches to the mode of the transition of the match's token type, if the current mode
    /// has one.
    fn execute_possible_mode_switch(&mut self, current_match: &Match)
        requires
            old(self).mode_valid(),
        ensures
            final(self).spec_current_mode() == mode_after(old(self).modes()[old(self).spec_current_mode() as int], old(self).spec_current_mode(), Some(*current_match)),
            final(self).classes() == old(self).classes(),
            final(self).modes() == old(self).modes(),
            old(self).wf() ==> final(self).wf(),
    {
        match self.scanner_modes[self.current_mode].has_transition(current_match.token_type()) {
            Some(next_mode) => {
                self.current_mode = next_mode;
            },
            None => {},
        }
    }

    /// The index of the mode to switch to after a token of the given type in the current mode,
    /// if any.
    pub fn has_transition(&self, token_type: usize) -> (r: Option<usize>)
        requires
            self.mode_valid(),
        ensures
            r == transition_lookup(self.modes()[self.spec_current_mode() as int].transitions@, token_type),
    {
        self.scanner_modes[self.current_mode].has_transition(token_type)
    }

    /// The name of the scanner mode with the given index; `None` if there is no such mode.
    pub fn mode_name(&self, index: usize) -> (r: Option<&str>)
        ensures
            index < self.modes().len() ==> (r matches Some(n) && n@ == self.modes()[index as int].name@),
            index >= self.modes().len() ==> r is None,
    {
        if index < self.scanner_modes.len() {
            Some(self.scanner_modes[index].name.as_str())
        } else {
            None
        }
    }

    /// The current scanner mode.
    pub fn current_mode(&self) -> (r: usize)
        ensures
            r == self.spec_current_mode(),
    {
        self.current_mode
    }

    /// Sets the current scanner mode.
    pub fn set_mode(&mut self, mode: usize)
        ensures
            final(self).spec_current_mode() == mode,
            final(self).classes() == old(self).classes(),
            final(self).modes() == old(self).modes(),
            old(self).wf() ==> final(self).wf(),
            final(self).mode_valid() == (mode < final(self).modes().len()),
    {
        self.current_mode = mode;
    }
}

} // verus!
