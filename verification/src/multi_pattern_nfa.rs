//! The multi-pattern NFA: the NFAs of several patterns side by side, with their states numbered
//! one after the other behind a common start state 0 that has an epsilon transition to the
//! start state of each NFA.
use vstd::prelude::*;
use crate::automaton_language::{lemma_unshift_shift, pattern_nfa};
use crate::char_matcher::CharMatcher;
use crate::character_class::{lemma_registry_extends, registry_extends, CharacterClassRegistry, KeyView};
use crate::errors::{DfaError, ScnrError, ScnrErrorKind};
use crate::nfa::{
    built_from_tree, built_nfa, keys_extend, registry_grew, lemma_classes_below_mono, lemma_shift_classes, nfa_wf, shift_state,
    shift_states, states_classes_below, EpsilonTransition, Nfa, NfaStateView, NfaView,
};
use crate::pattern::{pattern_text, Pattern};
use crate::regex_ast::{parse_outcome, parse_regex_syntax};
use crate::regex_tree::{tree_refusal, RegexTree};
use crate::tree_language::{lemma_reads_as_tree_extends, reads_as_tree};
use crate::text::{decimal, push_chars, push_str, str_chars, string_from_chars, usize_to_decimal};

verus! {

/// The NFA's states carry the numbers `off`, `off + 1`, ... in order, all its transitions stay
/// among them, start and end state are among them and the end state has no transitions.
pub open spec fn nfa_at(v: NfaView, off: int) -> bool {
    let n = v.states.len() as int;
    &&& n >= 1
    &&& off <= v.start < off + n
    &&& off <= v.end < off + n
    &&& forall|i: int| 0 <= i < n ==> (#[trigger] v.states[i]).id == off + i
    &&& forall|i: int, j: int|
        0 <= i < n && 0 <= j < v.states[i].eps.len() ==> off <= #[trigger] v.states[i].eps[j] < off + n
    &&& forall|i: int, j: int|
        0 <= i < n && 0 <= j < v.states[i].trans.len() ==> off <= #[trigger] v.states[i].trans[j].1 < off + n
    &&& v.states[v.end - off].eps.len() == 0
    &&& v.states[v.end - off].trans.len() == 0
}

/// The NFAs as abstract values.
pub open spec fn nfas_view(nfas: Seq<Nfa>) -> Seq<NfaView> {
    nfas.map_values(|n: Nfa| n@)
}

/// The number of the first state of the `k`-th NFA: 1 for the first, then behind the states
/// of the NFAs before.
pub open spec fn nfa_offset(nfas: Seq<NfaView>, k: int) -> int
    decreases k,
{
    if k <= 0 {
        1
    } else {
        nfa_offset(nfas, k - 1) + nfas[k - 1].states.len()
    }
}

/// Appending an NFA keeps the offsets of the NFAs before it.
pub proof fn lemma_nfa_offset_push(nfas: Seq<NfaView>, v: NfaView, k: int)
    requires
        0 <= k <= nfas.len(),
    ensures
        nfa_offset(nfas.push(v), k) == nfa_offset(nfas, k),
    decreases k,
{
    if k > 0 {
        lemma_nfa_offset_push(nfas, v, k - 1);
    }
}

/// Offsets grow with the index.
pub proof fn lemma_nfa_offset_mono(nfas: Seq<NfaView>, k: int, l: int)
    requires
        0 <= k <= l <= nfas.len(),
    ensures
        1 <= nfa_offset(nfas, k) <= nfa_offset(nfas, l),
    decreases l,
{
    if l > 0 {
        if k < l {
            lemma_nfa_offset_mono(nfas, k, l - 1);
        } else {
            lemma_nfa_offset_mono(nfas, l - 1, l - 1);
        }
    }
}

/// A well-formed NFA with its state numbers raised by `off` has its states at `off`.
pub proof fn lemma_shift_at(v: NfaView, off: usize)
    requires
        nfa_wf(v),
        v.states.len() + off <= usize::MAX,
    ensures
        nfa_at(
            NfaView {
                states: shift_states(v.states, off),
                start: (v.start + off) as usize,
                end: (v.end + off) as usize,
            },
            off as int,
        ),
{
    let w = NfaView { states: shift_states(v.states, off), start: (v.start + off) as usize, end: (v.end + off) as usize };
    let n = v.states.len() as int;
    assert forall|i: int, j: int| 0 <= i < n && 0 <= j < w.states[i].eps.len() implies off <= #[trigger] w.states[i].eps[j] < off + n by {
        assert(w.states[i] == shift_state(v.states[i], off));
        assert(v.states[i].eps[j] < n);
    }
    assert forall|i: int, j: int| 0 <= i < n && 0 <= j < w.states[i].trans.len() implies off <= #[trigger] w.states[i].trans[j].1 < off + n by {
        assert(w.states[i] == shift_state(v.states[i], off));
        assert(v.states[i].trans[j].1 < n);
    }
    assert forall|i: int| 0 <= i < n implies (#[trigger] w.states[i]).id == off + i by {
        assert(w.states[i] == shift_state(v.states[i], off));
    }
    assert(w.states[w.end - off] == shift_state(v.states[v.end as int], off));
}

/// Raising the bound of the class ids keeps a multi-pattern NFA well formed.
pub proof fn lemma_wf_mono(mp: MultiPatternNfa, m1: nat, m2: nat)
    requires
        mp.wf(m1),
        m1 <= m2,
    ensures
        mp.wf(m2),
{
    let ns = nfas_view(mp.nfas@);
    assert forall|k: int| 0 <= k < ns.len() implies states_classes_below((#[trigger] ns[k]).states, m2) by {
        lemma_classes_below_mono(ns[k].states, m1, m2);
    }
}

/// Appending an NFA whose states are numbered behind the states present keeps a multi-pattern
/// NFA well formed.
pub proof fn lemma_wf_push(old: MultiPatternNfa, new: MultiPatternNfa, nfa: NfaView, m: nat)
    requires
        old.wf(m),
        nfas_view(new.nfas@) == nfas_view(old.nfas@).push(nfa),
        new.patterns@.len() == old.patterns@.len() + 1,
        new.start_transitions@ == old.start_transitions@.push(EpsilonTransition { target_state: nfa.start }),
        nfa_at(nfa, old.state_count()),
        states_classes_below(nfa.states, m),
        old.state_count() + nfa.states.len() <= usize::MAX,
    ensures
        new.wf(m),
        new.state_count() == old.state_count() + nfa.states.len(),
{
    let ns = nfas_view(old.nfas@);
    let ns2 = nfas_view(new.nfas@);
    assert(new.nfas@.len() == old.nfas@.len() + 1) by {
        assert(ns2.len() == ns.len() + 1);
    }
    assert forall|k: int| 0 <= k <= ns.len() implies nfa_offset(ns2, k) == nfa_offset(ns, k) by {
        lemma_nfa_offset_push(ns, nfa, k);
    }
    assert(ns2[ns.len() as int] == nfa);
    assert forall|k: int| 0 <= k < ns2.len() implies nfa_at(#[trigger] ns2[k], nfa_offset(ns2, k)) by {
        if k < ns.len() {
            assert(ns2[k] == ns[k]);
        }
    }
    assert forall|k: int| 0 <= k < ns2.len() implies (#[trigger] new.start_transitions@[k]).target_state == ns2[k].start by {
        if k < ns.len() {
            assert(ns2[k] == ns[k]);
        }
    }
    assert forall|k: int| 0 <= k < ns2.len() implies states_classes_below((#[trigger] ns2[k]).states, m) by {
        if k < ns.len() {
            assert(ns2[k] == ns[k]);
        }
    }
}

/// The NFAs of several patterns with their states numbered one after the other behind the
/// common start state 0.
#[derive(Debug, Clone)]
pub struct MultiPatternNfa {
    /// The patterns, one for each NFA.
    pub patterns: Vec<Pattern>,
    /// The epsilon transitions from the start state 0 to the start states of the NFAs.
    pub start_transitions: Vec<EpsilonTransition>,
    /// The NFAs of the patterns.
    pub nfas: Vec<Nfa>,
}

/// The NFA of pattern `k` is built from a regular expression tree without refused parts: it
/// reads what the tree reads under the registry of `keys` and `cls` and every extension of it.
pub open spec fn pattern_from_tree(mp: MultiPatternNfa, k: int, keys: Seq<KeyView>, cls: Seq<CharMatcher>) -> bool {
    exists|t: RegexTree| tree_refusal(t) is None && #[trigger] reads_as_tree(pattern_nfa(mp, k), t, keys, cls)
}

/// Where every pattern is built from a tree under a registry, it is so under every extension.
pub proof fn lemma_patterns_from_trees_extend(
    mp: MultiPatternNfa,
    n: int,
    keys: Seq<KeyView>,
    cls: Seq<CharMatcher>,
    keys_b: Seq<KeyView>,
    cls_b: Seq<CharMatcher>,
)
    requires
        forall|k: int| 0 <= k < n ==> #[trigger] pattern_from_tree(mp, k, keys, cls),
        registry_extends(keys, cls, keys_b, cls_b),
    ensures
        forall|k: int| 0 <= k < n ==> #[trigger] pattern_from_tree(mp, k, keys_b, cls_b),
{
    assert forall|k: int| 0 <= k < n implies #[trigger] pattern_from_tree(mp, k, keys_b, cls_b) by {
        assert(pattern_from_tree(mp, k, keys, cls));
        let t = choose|t: RegexTree| tree_refusal(t) is None && #[trigger] reads_as_tree(pattern_nfa(mp, k), t, keys, cls);
        lemma_reads_as_tree_extends(pattern_nfa(mp, k), t, keys, cls, keys_b, cls_b);
    }
}

impl MultiPatternNfa {
    /// The NFAs are numbered one after the other from state 1 on, the start transitions lead to
    /// their start states, and their character classes are below `m`.
    pub open spec fn wf(&self, m: nat) -> bool {
        let ns = nfas_view(self.nfas@);
        &&& self.patterns@.len() == ns.len()
        &&& self.start_transitions@.len() == ns.len()
        &&& forall|k: int| 0 <= k < ns.len() ==> nfa_at(#[trigger] ns[k], nfa_offset(ns, k))
        &&& forall|k: int| 0 <= k < ns.len() ==> states_classes_below((#[trigger] ns[k]).states, m)
        &&& forall|k: int| 0 <= k < ns.len() ==> (#[trigger] self.start_transitions@[k]).target_state == ns[k].start
        &&& nfa_offset(ns, ns.len() as int) <= usize::MAX
    }

    /// The number of states: the start state and the states of all NFAs.
    pub open spec fn state_count(&self) -> int {
        nfa_offset(nfas_view(self.nfas@), self.nfas@.len() as int)
    }

    /// Creates a multi-pattern NFA without patterns.
    pub fn new() -> (r: Self)
        ensures
            r.wf(0),
            r.nfas@.len() == 0,
            r.state_count() == 1,
    {
        Self { patterns: Vec::new(), start_transitions: Vec::new(), nfas: Vec::new() }
    }

    /// Appends the NFA of a pattern: its states are numbered behind the states present, and the
    /// start state gets an epsilon transition to its start state.
    pub fn add_nfa(&mut self, nfa: Nfa, pattern: Pattern, Ghost(m): Ghost<nat>) -> (r: Result<(), ScnrError>)
        requires
            old(self).wf(m),
            built_nfa(nfa@, m),
        ensures
            r is Ok ==> final(self).wf(m)
                && final(self).patterns@ == old(self).patterns@.push(pattern)
                && final(self).nfas@.len() == old(self).nfas@.len() + 1
                && final(self).state_count() == old(self).state_count() + nfa@.states.len()
                && final(self).nfas@.last().pattern.spec_token_type() == nfa.pattern.spec_token_type()
                && forall|k: int| 0 <= k < old(self).nfas@.len() ==> #[trigger] final(self).nfas@[k] == old(self).nfas@[k],
            r is Ok ==> pattern_nfa(*final(self), old(self).nfas@.len() as int) == nfa@
                && forall|k: int| 0 <= k < old(self).nfas@.len() ==> #[trigger] pattern_nfa(*final(self), k) == pattern_nfa(*old(self), k),
            r matches Err(e) ==> *final(self) == *old(self)
                && old(self).state_count() + nfa@.states.len() > usize::MAX
                && *e.source is DfaError,
    {
        let ghost ns = nfas_view(self.nfas@);
        let next_state = self.next_state();
        if nfa.states.len() > usize::MAX - next_state {
            let mut v: Vec<char> = Vec::new();
            push_str(&mut v, "automaton too large");
            return Err(ScnrError::new(ScnrErrorKind::DfaError(DfaError::ConstructionError(string_from_chars(&v)))));
        }
        let mut nfa = nfa;
        let ghost before = nfa@;
        let (s, _) = nfa.shift_ids(next_state);
        proof {
            lemma_shift_at(before, next_state);
            lemma_shift_classes(before.states, next_state, m);
        }
        let ghost old_self = *self;
        self.start_transitions.push(EpsilonTransition::new(s));
        self.patterns.push(pattern);
        self.nfas.push(nfa);
        proof {
            assert(nfas_view(self.nfas@) =~= ns.push(nfa@));
            assert(self.start_transitions@ =~= old_self.start_transitions@.push(EpsilonTransition { target_state: nfa@.start }));
            lemma_wf_push(old_self, *self, nfa@, m);
            let ns2 = nfas_view(self.nfas@);
            assert forall|k: int| 0 <= k <= ns.len() implies #[trigger] nfa_offset(ns2, k) == nfa_offset(ns, k) by {
                lemma_nfa_offset_push(ns, nfa@, k);
            }
            assert(nfa_offset(ns2, ns.len() as int) == next_state);
            lemma_unshift_shift(before, next_state);
            assert(ns2[ns.len() as int] == nfa@);
            assert forall|k: int| 0 <= k < ns.len() implies #[trigger] pattern_nfa(*self, k) == pattern_nfa(old_self, k) by {
                assert(ns2[k] == ns[k]);
                assert(nfa_offset(ns2, k) == nfa_offset(ns, k));
            }
        }
        Ok(())
    }

    /// The number of the first state behind all NFAs.
    fn next_state(&self) -> (r: usize)
        requires
            self.state_count() <= usize::MAX,
        ensures
            r == self.state_count(),
    {
        let mut next: usize = 1;
        let mut k: usize = 0;
        let ghost ns = nfas_view(self.nfas@);
        while k < self.nfas.len()
            invariant
                ns == nfas_view(self.nfas@),
                k <= ns.len(),
                next == nfa_offset(ns, k as int),
                nfa_offset(ns, ns.len() as int) <= usize::MAX,
            decreases ns.len() - k,
        {
            proof {
                lemma_nfa_offset_mono(ns, k as int + 1, ns.len() as int);
            }
            assert(ns[k as int] == self.nfas@[k as int]@);
            next = next + self.nfas[k].states.len();
            k = k + 1;
        }
        next
    }

    /// Builds the multi-pattern NFA of the given patterns, registering their character classes.
    ///
    /// A pattern that `regex_syntax` cannot parse gives its parse error; an error in building the
    /// NFA of a pattern is given in the context of the pattern's number and text.
    pub fn try_from_patterns(
        patterns: &[Pattern],
        character_class_registry: &mut CharacterClassRegistry,
    ) -> (r: Result<Self, ScnrError>)
        requires
            old(character_class_registry).wf(),
        ensures
            final(character_class_registry).wf(),
            keys_extend(old(character_class_registry).keys(), final(character_class_registry).keys()),
            registry_grew(*old(character_class_registry), *final(character_class_registry)),
            r matches Ok(mp) ==> mp.wf(final(character_class_registry).keys().len())
                && mp.patterns@.len() == patterns@.len()
                && forall|k: int| 0 <= k < patterns@.len() ==> {
                    &&& (#[trigger] mp.patterns@[k]).spec_pattern() == patterns@[k].spec_pattern()
                    &&& mp.patterns@[k].spec_token_type() == patterns@[k].spec_token_type()
                    &&& mp.patterns@[k].spec_lookahead() == patterns@[k].spec_lookahead()
                    &&& mp.nfas@[k].pattern.spec_token_type() == patterns@[k].spec_token_type()
                },
            r matches Ok(mp) ==> forall|k: int| 0 <= k < patterns@.len() ==>
                #[trigger] pattern_from_tree(mp, k, final(character_class_registry).keys(), final(character_class_registry).class_matchers()),
            r is Ok ==> forall|k: int| 0 <= k < patterns@.len() ==> parse_outcome(#[trigger] patterns@[k].spec_pattern()) is None,
            patterns@.len() == 0 ==> r is Ok,
            r matches Err(e) ==> error_in_some_pattern(*e.source, patterns@),
    {
        let ghost keys0 = character_class_registry.keys();
        let ghost cls0 = character_class_registry.class_matchers();
        proof {
            character_class_registry.lemma_views();
            lemma_registry_extends(keys0, cls0, keys0, cls0, keys0, cls0);
        }
        let mut mp = Self::new();
        let mut index: usize = 0;
        while index < patterns.len()
            invariant
                keys0 == old(character_class_registry).keys(),
                cls0 == old(character_class_registry).class_matchers(),
                registry_extends(keys0, cls0, character_class_registry.keys(), character_class_registry.class_matchers()),
                index <= patterns@.len(),
                character_class_registry.wf(),
                keys_extend(old(character_class_registry).keys(), character_class_registry.keys()),
                mp.wf(character_class_registry.keys().len()),
                mp.patterns@.len() == index,
                mp.nfas@.len() == index,
                forall|k: int| 0 <= k < index ==> {
                    &&& (#[trigger] mp.patterns@[k]).spec_pattern() == patterns@[k].spec_pattern()
                    &&& mp.patterns@[k].spec_token_type() == patterns@[k].spec_token_type()
                    &&& mp.patterns@[k].spec_lookahead() == patterns@[k].spec_lookahead()
                    &&& mp.nfas@[k].pattern.spec_token_type() == patterns@[k].spec_token_type()
                },
                forall|k: int| 0 <= k < index ==>
                    #[trigger] pattern_from_tree(mp, k, character_class_registry.keys(), character_class_registry.class_matchers()),
                forall|k: int| 0 <= k < index ==> parse_outcome(#[trigger] patterns@[k].spec_pattern()) is None,
            decreases patterns@.len() - index,
        {
            let pattern = &patterns[index];
            let ast = match parse_regex_syntax(pattern.pattern()) {
                Ok(ast) => ast,
                Err(e) => {
                    return Err(e);
                },
            };
            let ghost keys_before = character_class_registry.keys();
            let ghost cls_before = character_class_registry.class_matchers();
            let result = Nfa::try_from_ast(ast, character_class_registry);
            proof {
                lemma_registry_extends(keys0, cls0, keys_before, cls_before,
                    character_class_registry.keys(), character_class_registry.class_matchers());
            }
            match result {
                Err(e) => {
                    let r = in_pattern(e, index, pattern);
                    proof {
                        lemma_in_pattern_context(*r.source, *e.source, index as int, patterns@);
                    }
                    return Err(r);
                },
                Ok(nfa) => {
                    let ghost m = character_class_registry.keys().len();
                    let ghost keys_now = character_class_registry.keys();
                    let ghost cls_now = character_class_registry.class_matchers();
                    proof {
                        lemma_wf_mono(mp, keys_before.len(), m);
                        lemma_patterns_from_trees_extend(mp, index as int, keys_before, cls_before, keys_now, cls_now);
                    }
                    let ghost built = nfa@;
                    let ghost t = choose|t: RegexTree| tree_refusal(t) is None && #[trigger] built_from_tree(nfa, t, *character_class_registry);
                    let mut nfa = nfa;
                    nfa.set_terminal_id(pattern.terminal_id());
                    let ghost old_mp = mp;
                    match mp.add_nfa(nfa, pattern.duplicate(), Ghost(m)) {
                        Ok(()) => {},
                        Err(e) => {
                            return Err(e);
                        },
                    }
                    proof {
                        assert forall|k: int| 0 <= k < index + 1 implies {
                            &&& (#[trigger] mp.patterns@[k]).spec_pattern() == patterns@[k].spec_pattern()
                            &&& mp.patterns@[k].spec_token_type() == patterns@[k].spec_token_type()
                            &&& mp.patterns@[k].spec_lookahead() == patterns@[k].spec_lookahead()
                            &&& mp.nfas@[k].pattern.spec_token_type() == patterns@[k].spec_token_type()
                        } by {
                            if k < index {
                                assert(mp.nfas@[k] == old_mp.nfas@[k]);
                            }
                        }
                        assert forall|k: int| 0 <= k < index + 1 implies
                            #[trigger] pattern_from_tree(mp, k, keys_now, cls_now) by {
                            if k < index {
                                assert(pattern_from_tree(old_mp, k, keys_now, cls_now));
                                assert(pattern_nfa(mp, k) == pattern_nfa(old_mp, k));
                            } else {
                                assert(pattern_nfa(mp, k) == built);
                                assert(reads_as_tree(pattern_nfa(mp, k), t, keys_now, cls_now));
                            }
                        }
                    }
                },
            }
            index = index + 1;
        }
        Ok(mp)
    }

    /// The patterns of the NFAs.
    pub fn patterns(&self) -> (r: &[Pattern])
        ensures
            r@ == self.patterns@,
    {
        self.patterns.as_slice()
    }

    /// The epsilon transitions from the start state to the start states of the NFAs.
    pub fn start_transitions(&self) -> (r: &[EpsilonTransition])
        ensures
            r@ == self.start_transitions@,
    {
        self.start_transitions.as_slice()
    }
}

/// The context of an error in the pattern with the given number and text.
pub open spec fn pattern_context(index: nat, text: Seq<char>) -> Seq<char> {
    "Error in pattern #"@ + decimal(index) + " '"@ + text + "'"@
}

/// `s` begins with `prefix`.
pub open spec fn has_prefix(s: Seq<char>, prefix: Seq<char>) -> bool {
    prefix.len() <= s.len() && s.subrange(0, prefix.len() as int) == prefix
}

/// The error is a parse error, an error in the context of one of the patterns, or an error of
/// the automaton construction.
pub open spec fn error_in_some_pattern(kind: ScnrErrorKind, patterns: Seq<Pattern>) -> bool {
    match kind {
        ScnrErrorKind::RegexSyntaxError(_, ctx) => ctx@ == "!"@ || exists|i: int|
            0 <= i < patterns.len() && ctx@ == pattern_context(i as nat, pattern_text(
                #[trigger] patterns[i].spec_pattern(),
                patterns[i].spec_lookahead(),
            )),
        ScnrErrorKind::UnsupportedFeature(s) => exists|i: int|
            0 <= i < patterns.len() && has_prefix(s@, pattern_context(i as nat, pattern_text(
                #[trigger] patterns[i].spec_pattern(),
                patterns[i].spec_lookahead(),
            )) + ": "@),
        ScnrErrorKind::DfaError(_) => true,
    }
}

/// An error put into the context of one of the patterns is an error in some pattern.
proof fn lemma_in_pattern_context(r: ScnrErrorKind, e: ScnrErrorKind, index: int, patterns: Seq<Pattern>)
    requires
        0 <= index < patterns.len(),
        match e {
            ScnrErrorKind::RegexSyntaxError(t, _) => r matches ScnrErrorKind::RegexSyntaxError(t2, ctx)
                && ctx@ == pattern_context(index as nat, pattern_text(patterns[index].spec_pattern(), patterns[index].spec_lookahead())),
            ScnrErrorKind::UnsupportedFeature(s) => r matches ScnrErrorKind::UnsupportedFeature(s2)
                && s2@ == pattern_context(index as nat, pattern_text(patterns[index].spec_pattern(), patterns[index].spec_lookahead())) + ": "@ + s@,
            ScnrErrorKind::DfaError(_) => r is DfaError,
        },
    ensures
        error_in_some_pattern(r, patterns),
{
    let p = pattern_context(index as nat, pattern_text(patterns[index].spec_pattern(), patterns[index].spec_lookahead())) + ": "@;
    match r {
        ScnrErrorKind::UnsupportedFeature(s2) => {
            assert(s2@.subrange(0, p.len() as int) =~= p);
            assert(has_prefix(s2@, p));
        },
        _ => {},
    }
}

/// Puts an error that occurred in building the NFA of the pattern with the given number into
/// the context of the pattern: a syntax error gets the pattern as its context, and the text of
/// an unsupported feature is prefixed with it.
fn in_pattern(e: ScnrError, index: usize, pattern: &Pattern) -> (r: ScnrError)
    ensures
        match *e.source {
            ScnrErrorKind::RegexSyntaxError(t, _) => *r.source matches ScnrErrorKind::RegexSyntaxError(t2, ctx)
                && t2@ == t@ && ctx@ == pattern_context(index as nat, pattern_text(pattern.spec_pattern(), pattern.spec_lookahead())),
            ScnrErrorKind::UnsupportedFeature(s) => *r.source matches ScnrErrorKind::UnsupportedFeature(s2)
                && s2@ == pattern_context(index as nat, pattern_text(pattern.spec_pattern(), pattern.spec_lookahead())) + ": "@ + s@,
            ScnrErrorKind::DfaError(_) => r == e,
        },
{
    let mut ctx: Vec<char> = Vec::new();
    push_str(&mut ctx, "Error in pattern #");
    push_chars(&mut ctx, &usize_to_decimal(index));
    push_str(&mut ctx, " '");
    let text = pattern.to_string();
    push_chars(&mut ctx, &str_chars(text.as_str()));
    push_str(&mut ctx, "'");
    let kind = *e.source;
    match kind {
        ScnrErrorKind::RegexSyntaxError(t, _) => {
            ScnrError::new(ScnrErrorKind::RegexSyntaxError(t, string_from_chars(&ctx)))
        },
        ScnrErrorKind::UnsupportedFeature(s) => {
            push_str(&mut ctx, ": ");
            push_chars(&mut ctx, &str_chars(s.as_str()));
            ScnrError::new(ScnrErrorKind::UnsupportedFeature(string_from_chars(&ctx)))
        },
        ScnrErrorKind::DfaError(d) => ScnrError::new(ScnrErrorKind::DfaError(d)),
    }
}

} // verus!
