//! Non-deterministic finite automata built from the syntax trees of regular expressions by
//! Thompson's construction.
use vstd::prelude::*;
use crate::char_matcher::{matcher_has, CharMatcher};
use crate::character_class::{lemma_registry_extends, registry_extends, CharacterClassRegistry, ClassKey, ClassKeyKind, KeyView};
use crate::errors::{kind_text, unsupported, DfaError, ScnrError, ScnrErrorKind};
use crate::graph::{adj_view, reachable, reachable_from};
use crate::pattern::Pattern;
use crate::nfa_language::{lemma_empty_language, nfa_accepts};
use crate::regex_ast::{ast_kind_text, RepetitionOp};
use crate::regex_tree::{
    all_build_empty_nfa, alternatives_accept, builds_empty_nfa, built_text, non_greedy_text, regex_tree,
    registered_has, sequence_accepts, sequence_refusal, tree_accepts, tree_refusal, RegexNode, RegexTree,
};
use crate::tree_language::{
    class_nfa, copies_accept, lemma_alternatives_step, lemma_at_least_repeats, lemma_bounded_repeats,
    lemma_class_language, lemma_copies_step, lemma_copies_zero, lemma_exactly_repeats, lemma_one_or_more_repeats,
    lemma_refusal_prefix, lemma_repeats_tree, lemma_sequence_step, lemma_zero_or_more_repeats,
    lemma_zero_or_one_repeats, optional_copies, reads_as_tree, repeats_accept,
};
use crate::sorted::{insert_sorted, insert_sorted_pair, pairs_strictly_increasing, strictly_increasing};
use crate::text::{push_str, str_chars, string_from_chars};
use regex_syntax::ast::Ast;

verus! {

/// An epsilon transition to a target state.
#[derive(Debug, Clone, Copy, PartialEq, Eq, Hash, PartialOrd, Ord, Structural)]
pub struct EpsilonTransition {
    /// The state the transition leads to.
    pub target_state: usize,
}

impl EpsilonTransition {
    /// Create a new epsilon transition to the given state.
    pub fn new(target_state: usize) -> (r: Self)
        ensures
            r.target_state == target_state,
    {
        Self { target_state }
    }

    /// The state the transition leads to.
    pub fn target_state(&self) -> (r: usize)
        ensures
            r == self.target_state,
    {
        self.target_state
    }
}

/// A transition on the characters of a character class.
#[derive(Debug, Clone, Copy, PartialEq, Eq, Structural)]
pub struct NfaTransition {
    /// The next state to transition to.
    pub target_state: usize,
    /// The id of the character class in the registry.
    pub char_class: usize,
}

impl NfaTransition {
    /// The state the transition leads to.
    pub fn target_state(&self) -> (r: usize)
        ensures
            r == self.target_state,
    {
        self.target_state
    }

    /// The character class of the transition.
    pub fn char_class(&self) -> (r: usize)
        ensures
            r == self.char_class,
    {
        self.char_class
    }
}

/// The abstract value of an NFA state: its id, the targets of its epsilon transitions and the
/// character class and target of its other transitions.
pub struct NfaStateView {
    pub id: usize,
    pub eps: Seq<usize>,
    pub trans: Seq<(usize, usize)>,
}

/// A state of an NFA.
#[derive(Debug, Clone)]
pub struct NfaState {
    /// The id of the state.
    pub state: usize,
    /// The epsilon transitions leaving the state.
    pub epsilon_transitions: Vec<EpsilonTransition>,
    /// The character transitions leaving the state.
    pub transitions: Vec<NfaTransition>,
}

impl View for NfaState {
    type V = NfaStateView;

    open spec fn view(&self) -> NfaStateView {
        NfaStateView {
            id: self.state,
            eps: self.epsilon_transitions@.map_values(|e: EpsilonTransition| e.target_state),
            trans: self.transitions@.map_values(|t: NfaTransition| (t.char_class, t.target_state)),
        }
    }
}

/// The state with every state number raised by `off`.
pub open spec fn shift_state(s: NfaStateView, off: usize) -> NfaStateView {
    NfaStateView {
        id: (s.id + off) as usize,
        eps: s.eps.map_values(|x: usize| (x + off) as usize),
        trans: s.trans.map_values(|t: (usize, usize)| (t.0, (t.1 + off) as usize)),
    }
}

/// Every state number of the state is below `n`.
pub open spec fn state_targets_below(s: NfaStateView, n: int) -> bool {
    &&& forall|j: int| 0 <= j < s.eps.len() ==> #[trigger] s.eps[j] < n
    &&& forall|j: int| 0 <= j < s.trans.len() ==> #[trigger] s.trans[j].1 < n
}

impl NfaState {
    /// Create a new state without transitions.
    pub fn new(state: usize) -> (r: Self)
        ensures
            r@.id == state,
            r@.eps.len() == 0,
            r@.trans.len() == 0,
    {
        Self { state, epsilon_transitions: Vec::new(), transitions: Vec::new() }
    }

    /// True if the state has no transitions.
    pub fn is_empty(&self) -> (r: bool)
        ensures
            r == (self@.eps.len() == 0 && self@.trans.len() == 0),
    {
        self.transitions.len() == 0 && self.epsilon_transitions.len() == 0
    }

    /// The id of the state.
    pub fn id(&self) -> (r: usize)
        ensures
            r == self@.id,
    {
        self.state
    }

    /// The character transitions of the state.
    pub fn transitions(&self) -> (r: &[NfaTransition])
        ensures
            r@.map_values(|t: NfaTransition| (t.char_class, t.target_state)) == self@.trans,
    {
        self.transitions.as_slice()
    }

    /// The epsilon transitions of the state.
    pub fn epsilon_transitions(&self) -> (r: &[EpsilonTransition])
        ensures
            r@.map_values(|e: EpsilonTransition| e.target_state) == self@.eps,
    {
        self.epsilon_transitions.as_slice()
    }

    /// A copy of the state.
    pub fn duplicate(&self) -> (r: Self)
        ensures
            r@ == self@,
    {
        let mut eps: Vec<EpsilonTransition> = Vec::new();
        let mut i: usize = 0;
        while i < self.epsilon_transitions.len()
            invariant
                i <= self.epsilon_transitions@.len(),
                eps@ == self.epsilon_transitions@.take(i as int),
            decreases self.epsilon_transitions@.len() - i,
        {
            eps.push(self.epsilon_transitions[i]);
            i = i + 1;
            assert(eps@ =~= self.epsilon_transitions@.take(i as int));
        }
        let mut trans: Vec<NfaTransition> = Vec::new();
        let mut k: usize = 0;
        while k < self.transitions.len()
            invariant
                k <= self.transitions@.len(),
                trans@ == self.transitions@.take(k as int),
            decreases self.transitions@.len() - k,
        {
            trans.push(self.transitions[k]);
            k = k + 1;
            assert(trans@ =~= self.transitions@.take(k as int));
        }
        assert(eps@ =~= self.epsilon_transitions@);
        assert(trans@ =~= self.transitions@);
        NfaState { state: self.state, epsilon_transitions: eps, transitions: trans }
    }

    /// Apply an offset to every state number.
    pub fn offset(&mut self, offset: usize)
        requires
            old(self)@.id + offset <= usize::MAX,
            forall|j: int| 0 <= j < old(self)@.eps.len() ==> #[trigger] old(self)@.eps[j] + offset <= usize::MAX,
            forall|j: int| 0 <= j < old(self)@.trans.len() ==> #[trigger] old(self)@.trans[j].1 + offset <= usize::MAX,
        ensures
            final(self)@ == shift_state(old(self)@, offset),
    {
        let mut eps: Vec<EpsilonTransition> = Vec::new();
        let mut i: usize = 0;
        while i < self.epsilon_transitions.len()
            invariant
                *self == *old(self),
                forall|j: int| 0 <= j < old(self)@.eps.len() ==> #[trigger] old(self)@.eps[j] + offset <= usize::MAX,
                i <= self.epsilon_transitions@.len(),
                eps@.len() == i,
                forall|j: int| 0 <= j < i ==> #[trigger] eps@[j].target_state == self.epsilon_transitions@[j].target_state + offset,
            decreases self.epsilon_transitions@.len() - i,
        {
            assert(old(self)@.eps[i as int] == self.epsilon_transitions@[i as int].target_state);
            eps.push(EpsilonTransition { target_state: self.epsilon_transitions[i].target_state + offset });
            i = i + 1;
        }
        let mut trans: Vec<NfaTransition> = Vec::new();
        let mut k: usize = 0;
        while k < self.transitions.len()
            invariant
                *self == *old(self),
                forall|j: int| 0 <= j < old(self)@.trans.len() ==> #[trigger] old(self)@.trans[j].1 + offset <= usize::MAX,
                k <= self.transitions@.len(),
                trans@.len() == k,
                forall|j: int| 0 <= j < k ==> #[trigger] trans@[j].target_state == self.transitions@[j].target_state + offset
                    && trans@[j].char_class == self.transitions@[j].char_class,
            decreases self.transitions@.len() - k,
        {
            assert(old(self)@.trans[k as int].1 == self.transitions@[k as int].target_state);
            let t = self.transitions[k];
            trans.push(NfaTransition { target_state: t.target_state + offset, char_class: t.char_class });
            k = k + 1;
        }
        self.state = self.state + offset;
        self.epsilon_transitions = eps;
        self.transitions = trans;
        assert(self@.eps =~= shift_state(old(self)@, offset).eps);
        assert(self@.trans =~= shift_state(old(self)@, offset).trans);
    }

    /// Adds an epsilon transition.
    fn push_epsilon(&mut self, target_state: usize)
        ensures
            final(self)@.id == old(self)@.id,
            final(self)@.eps == old(self)@.eps.push(target_state),
            final(self)@.trans == old(self)@.trans,
    {
        self.epsilon_transitions.push(EpsilonTransition { target_state });
        assert(self@.eps =~= old(self)@.eps.push(target_state));
    }

    /// Adds a character transition.
    fn push_transition(&mut self, char_class: usize, target_state: usize)
        ensures
            final(self)@.id == old(self)@.id,
            final(self)@.eps == old(self)@.eps,
            final(self)@.trans == old(self)@.trans.push((char_class, target_state)),
    {
        self.transitions.push(NfaTransition { target_state, char_class });
        assert(self@.trans =~= old(self)@.trans.push((char_class, target_state)));
    }
}

/// The abstract value of an NFA: its states, start state and end state.
pub struct NfaView {
    pub states: Seq<NfaStateView>,
    pub start: usize,
    pub end: usize,
}

/// A non-deterministic finite automaton with one start and one end state.
#[derive(Debug, Clone)]
pub struct Nfa {
    /// The pattern that the NFA represents.
    pub pattern: Pattern,
    /// The states; state `i` has id `i`.
    pub states: Vec<NfaState>,
    /// The start state.
    pub start_state: usize,
    /// The end state, the only accepting state.
    pub end_state: usize,
}

impl View for Nfa {
    type V = NfaView;

    open spec fn view(&self) -> NfaView {
        NfaView {
            states: self.states@.map_values(|s: NfaState| s@),
            start: self.start_state,
            end: self.end_state,
        }
    }
}

/// The states with every state number raised by `off`.
pub open spec fn shift_states(states: Seq<NfaStateView>, off: usize) -> Seq<NfaStateView> {
    states.map_values(|s: NfaStateView| shift_state(s, off))
}

/// The NFA is well formed: state `i` has id `i`, all transitions lead to states of the NFA, no
/// state has more than two transitions, and the end state has none.
pub open spec fn nfa_wf(v: NfaView) -> bool {
    &&& v.states.len() >= 1
    &&& v.start < v.states.len()
    &&& v.end < v.states.len()
    &&& forall|i: int| 0 <= i < v.states.len() ==> (#[trigger] v.states[i]).id == i
    &&& forall|i: int| 0 <= i < v.states.len() ==> state_targets_below(#[trigger] v.states[i], v.states.len() as int)
    &&& forall|i: int| 0 <= i < v.states.len() ==> (#[trigger] v.states[i]).eps.len() + v.states[i].trans.len() <= 2
    &&& v.states[v.end as int].eps.len() == 0
    &&& v.states[v.end as int].trans.len() == 0
}

/// The NFA is the empty NFA: a single state without transitions that is start and end state.
pub open spec fn nfa_is_empty(v: NfaView) -> bool {
    v.start == 0 && v.end == 0 && v.states.len() == 1 && v.states[0].eps.len() == 0 && v.states[0].trans.len() == 0
}

/// The graph of the epsilon transitions of the NFA.
pub open spec fn eps_graph(v: NfaView) -> Seq<Seq<usize>> {
    v.states.map_values(|s: NfaStateView| s.eps)
}

/// The state with one more epsilon transition.
pub open spec fn with_eps(s: NfaStateView, t: usize) -> NfaStateView {
    NfaStateView { id: s.id, eps: s.eps.push(t), trans: s.trans }
}

/// The state with one more character transition.
pub open spec fn with_trans(s: NfaStateView, cc: usize, t: usize) -> NfaStateView {
    NfaStateView { id: s.id, eps: s.eps, trans: s.trans.push((cc, t)) }
}

/// The states of a concatenation: the end state of `a` gets an epsilon transition to the start
/// of `b`, whose states follow with their numbers raised by the number of states of `a`.
pub open spec fn concat_states(a: NfaView, b: NfaView) -> Seq<NfaStateView> {
    a.states.update(a.end as int, with_eps(a.states[a.end as int], (b.start + a.states.len()) as usize))
        + shift_states(b.states, a.states.len() as usize)
}


/// The states as abstract values.
pub open spec fn states_view(states: Seq<NfaState>) -> Seq<NfaStateView> {
    states.map_values(|s: NfaState| s@)
}

impl Nfa {
    /// Create the empty NFA: one state without transitions that is start and end state.
    pub fn new() -> (r: Self)
        ensures
            nfa_wf(r@),
            nfa_is_empty(r@),
            r.pattern.spec_pattern().len() == 0,
            r.pattern.spec_token_type() == 0,
            r.pattern.spec_lookahead() is None,
    {
        let mut states: Vec<NfaState> = Vec::new();
        states.push(NfaState::new(0));
        let r = Self { pattern: Pattern::new(String::new(), 0), states, start_state: 0, end_state: 0 };
        assert(r@.states.len() == 1);
        r
    }

    /// True if the NFA is empty, i.e. no states and no transitions have been added.
    pub fn is_empty(&self) -> (r: bool)
        ensures
            r == nfa_is_empty(self@),
    {
        self.start_state == 0 && self.end_state == 0 && self.states.len() == 1
            && self.states[0].is_empty()
    }

    /// The start state of the NFA.
    pub fn start_state(&self) -> (r: usize)
        ensures
            r == self@.start,
    {
        self.start_state
    }

    /// The end state of the NFA.
    pub fn end_state(&self) -> (r: usize)
        ensures
            r == self@.end,
    {
        self.end_state
    }

    /// The states of the NFA.
    pub fn states(&self) -> (r: &[NfaState])
        ensures
            states_view(r@) == self@.states,
    {
        self.states.as_slice()
    }

    /// The regular expression the NFA was built from.
    pub fn pattern(&self) -> (r: &str)
        ensures
            r@ == self.pattern.spec_pattern(),
    {
        self.pattern.pattern()
    }

    /// Sets the regular expression text, keeping the token type.
    pub fn set_pattern(&mut self, pattern: &str)
        ensures
            final(self)@ == old(self)@,
            final(self).pattern.spec_pattern() == pattern@,
            final(self).pattern.spec_token_type() == old(self).pattern.spec_token_type(),
            final(self).pattern.spec_lookahead() is None,
    {
        self.pattern = Pattern::new(pattern.to_owned(), self.pattern.terminal_id());
    }

    /// Sets the token type the NFA accepts.
    pub fn set_terminal_id(&mut self, terminal_id: usize)
        ensures
            final(self)@ == old(self)@,
            final(self).pattern.spec_pattern() == old(self).pattern.spec_pattern(),
            final(self).pattern.spec_token_type() == terminal_id,
            final(self).pattern.spec_lookahead() == old(self).pattern.spec_lookahead(),
    {
        self.pattern.set_token_type(terminal_id);
    }

    /// Appends a state; its id must be its index.
    pub fn add_state(&mut self, state: NfaState)
        requires
            state@.id == old(self)@.states.len(),
        ensures
            final(self)@.states == old(self)@.states.push(state@),
            final(self)@.start == old(self)@.start,
            final(self)@.end == old(self)@.end,
            final(self).pattern == old(self).pattern,
    {
        self.states.push(state);
        assert(self@.states =~= old(self)@.states.push(state@));
    }

    /// Sets the start state.
    pub fn set_start_state(&mut self, state: usize)
        ensures
            final(self)@.states == old(self)@.states,
            final(self)@.start == state,
            final(self)@.end == old(self)@.end,
            final(self).pattern == old(self).pattern,
    {
        self.start_state = state;
    }

    /// Sets the end state.
    pub fn set_end_state(&mut self, state: usize)
        ensures
            final(self)@.states == old(self)@.states,
            final(self)@.start == old(self)@.start,
            final(self)@.end == state,
            final(self).pattern == old(self).pattern,
    {
        self.end_state = state;
    }

    /// Adds a fresh state without transitions and returns its id.
    pub fn new_state(&mut self) -> (r: usize)
        requires
            old(self)@.states.len() < usize::MAX,
        ensures
            r == old(self)@.states.len(),
            final(self)@.states == old(self)@.states.push(NfaStateView { id: r, eps: Seq::empty(), trans: Seq::empty() }),
            final(self)@.start == old(self)@.start,
            final(self)@.end == old(self)@.end,
            final(self).pattern == old(self).pattern,
    {
        let state = self.states.len();
        let st = NfaState::new(state);
        assert(st@.eps =~= Seq::<usize>::empty());
        assert(st@.trans =~= Seq::<(usize, usize)>::empty());
        self.add_state(st);
        state
    }

    /// Adds a transition on the character class with the given key and ranges, registering the
    /// class.
    pub fn add_transition(
        &mut self,
        from: usize,
        key: ClassKey,
        matcher: CharMatcher,
        target_state: usize,
        char_class_registry: &mut CharacterClassRegistry,
    )
        requires
            from < old(self)@.states.len(),
            old(self)@.states[from as int].eps.len() + old(self)@.states[from as int].trans.len() < 2,
            old(char_class_registry).wf(),
        ensures
            final(char_class_registry).wf(),
            final(char_class_registry).keys().len() >= old(char_class_registry).keys().len(),
            forall|i: int| 0 <= i < old(char_class_registry).keys().len() ==>
                #[trigger] final(char_class_registry).keys()[i] == old(char_class_registry).keys()[i],
            exists|cc: usize|
                cc < final(char_class_registry).keys().len() && final(char_class_registry).keys()[cc as int] == key@
                && final(self)@.states == old(self)@.states.update(from as int, with_trans(old(self)@.states[from as int], cc, target_state)),
            final(self)@.start == old(self)@.start,
            final(self)@.end == old(self)@.end,
            final(self).pattern == old(self).pattern,
            registry_grew(*old(char_class_registry), *final(char_class_registry)),
    {
        let ghost key_view = key@;
        let char_class = char_class_registry.add_character_class(key, matcher);
        let mut st = self.states[from].duplicate();
        st.push_transition(char_class, target_state);
        self.states.set(from, st);
        assert(self@.states =~= old(self)@.states.update(from as int, with_trans(old(self)@.states[from as int], char_class, target_state)));
    }

    /// Adds an epsilon transition.
    pub fn add_epsilon_transition(&mut self, from: usize, target_state: usize)
        requires
            from < old(self)@.states.len(),
            old(self)@.states[from as int].eps.len() + old(self)@.states[from as int].trans.len() < 2,
        ensures
            final(self)@.states == old(self)@.states.update(from as int, with_eps(old(self)@.states[from as int], target_state)),
            final(self)@.start == old(self)@.start,
            final(self)@.end == old(self)@.end,
            final(self).pattern == old(self).pattern,
    {
        let mut st = self.states[from].duplicate();
        st.push_epsilon(target_state);
        self.states.set(from, st);
        assert(self@.states =~= old(self)@.states.update(from as int, with_eps(old(self)@.states[from as int], target_state)));
    }

    /// Apply an offset to every state number and return the new start and end states.
    pub fn shift_ids(&mut self, offset: usize) -> (r: (usize, usize))
        requires
            nfa_wf(old(self)@),
            old(self)@.states.len() + offset <= usize::MAX,
        ensures
            final(self)@.states == shift_states(old(self)@.states, offset),
            final(self)@.start == old(self)@.start + offset,
            final(self)@.end == old(self)@.end + offset,
            r == (final(self)@.start, final(self)@.end),
            final(self).pattern == old(self).pattern,
    {
        let n = self.states.len();
        let mut shifted: Vec<NfaState> = Vec::new();
        let mut i: usize = 0;
        while i < n
            invariant
                *self == *old(self),
                nfa_wf(self@),
                n == self@.states.len(),
                n + offset <= usize::MAX,
                i <= n,
                shifted@.len() == i,
                forall|j: int| 0 <= j < i ==> #[trigger] shifted@[j]@ == shift_state(self@.states[j], offset),
            decreases n - i,
        {
            let mut st = self.states[i].duplicate();
            assert(self@.states[i as int] == self.states@[i as int]@);
            assert(state_targets_below(self@.states[i as int], n as int));
            st.offset(offset);
            shifted.push(st);
            i = i + 1;
        }
        self.states = shifted;
        self.start_state = self.start_state + offset;
        self.end_state = self.end_state + offset;
        assert(self@.states =~= shift_states(old(self)@.states, offset));
        (self.start_state, self.end_state)
    }

    /// Returns the highest state number, 0 for an NFA without states.
    pub fn highest_state_number(&self) -> (r: usize)
        ensures
            self@.states.len() == 0 ==> r == 0,
            self@.states.len() > 0 ==> exists|i: int| 0 <= i < self@.states.len() && #[trigger] self@.states[i].id == r,
            forall|i: int| 0 <= i < self@.states.len() ==> #[trigger] self@.states[i].id <= r,
    {
        let mut best: usize = 0;
        let mut i: usize = 0;
        while i < self.states.len()
            invariant
                i <= self@.states.len(),
                i == 0 ==> best == 0,
                i > 0 ==> exists|j: int| 0 <= j < i && #[trigger] self@.states[j].id == best,
                forall|j: int| 0 <= j < i ==> #[trigger] self@.states[j].id <= best,
            decreases self@.states.len() - i,
        {
            assert(self@.states[i as int] == self.states@[i as int]@);
            let id = self.states[i].id();
            if i == 0 || id > best {
                best = id;
            }
            i = i + 1;
        }
        best
    }

    /// Move the states of the given NFA behind the states of this NFA.
    pub fn append(&mut self, nfa: Nfa)
        ensures
            final(self)@.states == old(self)@.states + nfa@.states,
            final(self)@.start == old(self)@.start,
            final(self)@.end == old(self)@.end,
            final(self).pattern == old(self).pattern,
    {
        let mut other = nfa.states;
        self.states.append(&mut other);
        assert(self@.states =~= old(self)@.states + nfa@.states);
    }

    /// A copy of the NFA.
    pub fn duplicate(&self) -> (r: Nfa)
        ensures
            r@ == self@,
            r.pattern.spec_pattern() == self.pattern.spec_pattern(),
            r.pattern.spec_token_type() == self.pattern.spec_token_type(),
            r.pattern.spec_lookahead() is None,
    {
        let mut states: Vec<NfaState> = Vec::new();
        let mut i: usize = 0;
        while i < self.states.len()
            invariant
                i <= self.states@.len(),
                states@.len() == i,
                forall|j: int| 0 <= j < i ==> #[trigger] states@[j]@ == self.states@[j]@,
            decreases self.states@.len() - i,
        {
            states.push(self.states[i].duplicate());
            i = i + 1;
        }
        let r = Nfa {
            pattern: Pattern::new(self.pattern.pattern().to_owned(), self.pattern.terminal_id()),
            states,
            start_state: self.start_state,
            end_state: self.end_state,
        };
        assert(r@.states =~= self@.states);
        r
    }
}


/// A state with the given id and epsilon transitions and no character transitions.
pub open spec fn eps_state(id: usize, eps: Seq<usize>) -> NfaStateView {
    NfaStateView { id, eps, trans: Seq::empty() }
}

/// The states of an alternation: a new start state with epsilon transitions to both start
/// states, and a new end state reached by epsilon transitions from both end states.
pub open spec fn alternation_states(a: NfaView, b: NfaView) -> Seq<NfaStateView> {
    let off = a.states.len() as usize;
    let n = (a.states.len() + b.states.len()) as usize;
    let bs = shift_states(b.states, off);
    (a.states.update(a.end as int, with_eps(a.states[a.end as int], (n + 1) as usize))
        + bs.update(b.end as int, with_eps(bs[b.end as int], (n + 1) as usize)))
        .push(eps_state(n, seq![a.start, (b.start + off) as usize]))
        .push(eps_state((n + 1) as usize, Seq::empty()))
}

/// The states of an optional NFA: a new start state with epsilon transitions to the start and
/// the end state.
pub open spec fn zero_or_one_states(a: NfaView) -> Seq<NfaStateView> {
    a.states.push(eps_state(a.states.len() as usize, seq![a.start, a.end]))
}

/// The states of a repeated NFA: a new start state leading to the start state, and the end
/// state leading to a new end state and back to the start state.
pub open spec fn one_or_more_states(a: NfaView) -> Seq<NfaStateView> {
    let n = a.states.len() as usize;
    a.states.update(a.end as int, with_eps(with_eps(a.states[a.end as int], (n + 1) as usize), a.start))
        .push(eps_state(n, seq![a.start]))
        .push(eps_state((n + 1) as usize, Seq::empty()))
}

/// The states of an optional repeated NFA: like the repeated NFA, and the new start state also
/// leads to the old end state.
pub open spec fn zero_or_more_states(a: NfaView) -> Seq<NfaStateView> {
    let n = a.states.len() as usize;
    a.states.update(a.end as int, with_eps(with_eps(a.states[a.end as int], (n + 1) as usize), a.start))
        .push(eps_state(n, seq![a.start, a.end]))
        .push(eps_state((n + 1) as usize, Seq::empty()))
}

/// A state with raised numbers has its targets below the raised bound.
proof fn lemma_shift_state(s: NfaStateView, off: usize, n: int)
    requires
        state_targets_below(s, n),
        n + off <= usize::MAX,
        s.id < n,
    ensures
        state_targets_below(shift_state(s, off), n + off),
        shift_state(s, off).id == s.id + off,
        shift_state(s, off).eps.len() == s.eps.len(),
        shift_state(s, off).trans.len() == s.trans.len(),
{
    let t = shift_state(s, off);
    assert forall|j: int| 0 <= j < t.eps.len() implies #[trigger] t.eps[j] < n + off by {
        assert(s.eps[j] < n);
    }
    assert forall|j: int| 0 <= j < t.trans.len() implies #[trigger] t.trans[j].1 < n + off by {
        assert(s.trans[j].1 < n);
    }
}

impl Nfa {
    /// Concatenates the current NFA with another NFA: the end state of this NFA gets an epsilon
    /// transition to the start state of the other. The empty NFA is replaced by the other.
    pub fn concat(&mut self, nfa: Nfa)
        requires
            nfa_wf(old(self)@),
            nfa_wf(nfa@),
            old(self)@.states.len() + nfa@.states.len() <= usize::MAX,
        ensures
            nfa_wf(final(self)@),
            final(self).pattern == old(self).pattern,
            nfa_is_empty(old(self)@) ==> final(self)@ == nfa@,
            !nfa_is_empty(old(self)@) ==> final(self)@.states == concat_states(old(self)@, nfa@)
                && final(self)@.start == old(self)@.start
                && final(self)@.end == nfa@.end + old(self)@.states.len(),
    {
        if self.is_empty() {
            self.set_start_state(nfa.start_state);
            self.set_end_state(nfa.end_state);
            self.states = nfa.states;
            return;
        }
        let ghost a = self@;
        let ghost b = nfa@;
        let off = self.states.len();
        let mut nfa = nfa;
        let (nfa_start, nfa_end) = nfa.shift_ids(off);
        self.append(nfa);
        let end = self.end_state;
        assert(self@.states[end as int] == a.states[end as int]);
        self.add_epsilon_transition(end, nfa_start);
        self.set_end_state(nfa_end);
        proof {
            let bs = shift_states(b.states, off);
            assert(self@.states =~= concat_states(a, b));
            let n = self@.states.len() as int;
            assert forall|i: int| 0 <= i < n implies (#[trigger] self@.states[i]).id == i
                && state_targets_below(self@.states[i], n)
                && self@.states[i].eps.len() + self@.states[i].trans.len() <= 2 by {
                if i < off {
                    assert(state_targets_below(a.states[i], off as int));
                } else {
                    lemma_shift_state(b.states[i - off], off, b.states.len() as int);
                }
            }
            lemma_shift_state(b.states[b.end as int], off, b.states.len() as int);
        }
    }

    /// Forms the alternation of the current NFA and another NFA. The empty NFA is replaced by the
    /// other.
    pub fn alternation(&mut self, nfa: Nfa)
        requires
            nfa_wf(old(self)@),
            nfa_wf(nfa@),
            old(self)@.states.len() + nfa@.states.len() + 2 <= usize::MAX,
        ensures
            nfa_wf(final(self)@),
            final(self).pattern == old(self).pattern,
            nfa_is_empty(old(self)@) ==> final(self)@ == nfa@,
            !nfa_is_empty(old(self)@) ==> final(self)@.states == alternation_states(old(self)@, nfa@)
                && final(self)@.start == old(self)@.states.len() + nfa@.states.len()
                && final(self)@.end == old(self)@.states.len() + nfa@.states.len() + 1,
    {
        if self.is_empty() {
            self.set_start_state(nfa.start_state);
            self.set_end_state(nfa.end_state);
            self.states = nfa.states;
            return;
        }
        let ghost a = self@;
        let ghost b = nfa@;
        let off = self.states.len();
        let mut nfa = nfa;
        let (nfa_start, nfa_end) = nfa.shift_ids(off);
        self.append(nfa);
        proof {
            lemma_shift_state(b.states[b.end as int], off, b.states.len() as int);
        }
        let start_state = self.new_state();
        let old_start = self.start_state;
        self.add_epsilon_transition(start_state, old_start);
        self.add_epsilon_transition(start_state, nfa_start);
        let end_state = self.new_state();
        let old_end = self.end_state;
        self.add_epsilon_transition(old_end, end_state);
        self.add_epsilon_transition(nfa_end, end_state);
        self.set_start_state(start_state);
        self.set_end_state(end_state);
        proof {
            let nn = (a.states.len() + b.states.len()) as int;
            assert(self@.states[nn].eps =~= seq![a.start, (b.start + off) as usize]);
            assert(self@.states[nn].trans =~= Seq::<(usize, usize)>::empty());
            assert(self@.states[nn + 1].eps =~= Seq::<usize>::empty());
            assert(self@.states[nn + 1].trans =~= Seq::<(usize, usize)>::empty());
            assert(self@.states =~= alternation_states(a, b));
            let n = self@.states.len() as int;
            assert forall|i: int| 0 <= i < n implies (#[trigger] self@.states[i]).id == i
                && state_targets_below(self@.states[i], n)
                && self@.states[i].eps.len() + self@.states[i].trans.len() <= 2 by {
                if i < off {
                    assert(state_targets_below(a.states[i], off as int));
                } else if i < off + b.states.len() {
                    lemma_shift_state(b.states[i - off], off, b.states.len() as int);
                }
            }
        }
    }

    /// Makes the NFA optional.
    pub fn zero_or_one(&mut self)
        requires
            nfa_wf(old(self)@),
            old(self)@.states.len() + 1 <= usize::MAX,
        ensures
            nfa_wf(final(self)@),
            final(self).pattern == old(self).pattern,
            final(self)@.states == zero_or_one_states(old(self)@),
            final(self)@.start == old(self)@.states.len(),
            final(self)@.end == old(self)@.end,
    {
        let ghost a = self@;
        let start_state = self.new_state();
        let old_start = self.start_state;
        let old_end = self.end_state;
        self.add_epsilon_transition(start_state, old_start);
        self.add_epsilon_transition(start_state, old_end);
        self.set_start_state(start_state);
        proof {
            let nn = a.states.len() as int;
            assert(self@.states[nn].eps =~= seq![a.start, a.end]);
            assert(self@.states[nn].trans =~= Seq::<(usize, usize)>::empty());
            assert(self@.states =~= zero_or_one_states(a));
            let n = self@.states.len() as int;
            assert forall|i: int| 0 <= i < n implies (#[trigger] self@.states[i]).id == i
                && state_targets_below(self@.states[i], n)
                && self@.states[i].eps.len() + self@.states[i].trans.len() <= 2 by {
                if i < a.states.len() {
                    assert(state_targets_below(a.states[i], a.states.len() as int));
                }
            }
        }
    }

    /// Makes the NFA repeatable at least once.
    pub fn one_or_more(&mut self)
        requires
            nfa_wf(old(self)@),
            old(self)@.states.len() + 2 <= usize::MAX,
        ensures
            nfa_wf(final(self)@),
            final(self).pattern == old(self).pattern,
            final(self)@.states == one_or_more_states(old(self)@),
            final(self)@.start == old(self)@.states.len(),
            final(self)@.end == old(self)@.states.len() + 1,
    {
        let ghost a = self@;
        let start_state = self.new_state();
        let old_start = self.start_state;
        self.add_epsilon_transition(start_state, old_start);
        let end_state = self.new_state();
        let old_end = self.end_state;
        self.add_epsilon_transition(old_end, end_state);
        self.add_epsilon_transition(old_end, old_start);
        self.set_start_state(start_state);
        self.set_end_state(end_state);
        proof {
            assert(self@.states =~= one_or_more_states(a));
            let n = self@.states.len() as int;
            assert forall|i: int| 0 <= i < n implies (#[trigger] self@.states[i]).id == i
                && state_targets_below(self@.states[i], n)
                && self@.states[i].eps.len() + self@.states[i].trans.len() <= 2 by {
                if i < a.states.len() {
                    assert(state_targets_below(a.states[i], a.states.len() as int));
                }
            }
        }
    }

    /// Makes the NFA repeatable any number of times, including none.
    pub fn zero_or_more(&mut self)
        requires
            nfa_wf(old(self)@),
            old(self)@.states.len() + 2 <= usize::MAX,
        ensures
            nfa_wf(final(self)@),
            final(self).pattern == old(self).pattern,
            final(self)@.states == zero_or_more_states(old(self)@),
            final(self)@.start == old(self)@.states.len(),
            final(self)@.end == old(self)@.states.len() + 1,
    {
        let ghost a = self@;
        let start_state = self.new_state();
        let old_start = self.start_state;
        let old_end = self.end_state;
        self.add_epsilon_transition(start_state, old_start);
        self.add_epsilon_transition(start_state, old_end);
        let end_state = self.new_state();
        self.add_epsilon_transition(old_end, end_state);
        self.add_epsilon_transition(old_end, old_start);
        self.set_start_state(start_state);
        self.set_end_state(end_state);
        proof {
            let nn = a.states.len() as int;
            assert(self@.states[nn].eps =~= seq![a.start, a.end]);
            assert(self@.states[nn].trans =~= Seq::<(usize, usize)>::empty());
            assert(self@.states =~= zero_or_more_states(a));
            let n = self@.states.len() as int;
            assert forall|i: int| 0 <= i < n implies (#[trigger] self@.states[i]).id == i
                && state_targets_below(self@.states[i], n)
                && self@.states[i].eps.len() + self@.states[i].trans.len() <= 2 by {
                if i < a.states.len() {
                    assert(state_targets_below(a.states[i], a.states.len() as int));
                }
            }
        }
    }
}


impl Nfa {
    /// The epsilon transitions of all states as adjacency lists.
    pub fn eps_adjacency(&self) -> (r: Vec<Vec<usize>>)
        ensures
            adj_view(r@) == eps_graph(self@),
    {
        let mut adj: Vec<Vec<usize>> = Vec::new();
        let mut i: usize = 0;
        while i < self.states.len()
            invariant
                i <= self.states@.len(),
                adj@.len() == i,
                forall|j: int| 0 <= j < i ==> (#[trigger] adj@[j])@ == self@.states[j].eps,
            decreases self.states@.len() - i,
        {
            let st = &self.states[i];
            let mut targets: Vec<usize> = Vec::new();
            let mut k: usize = 0;
            while k < st.epsilon_transitions.len()
                invariant
                    k <= st.epsilon_transitions@.len(),
                    targets@ == st@.eps.take(k as int),
                decreases st.epsilon_transitions@.len() - k,
            {
                targets.push(st.epsilon_transitions[k].target_state);
                k = k + 1;
                assert(targets@ =~= st@.eps.take(k as int));
            }
            assert(targets@ =~= st@.eps);
            adj.push(targets);
            i = i + 1;
        }
        assert(adj_view(adj@) =~= eps_graph(self@));
        adj
    }

    /// The epsilon closure of a state: the states reachable from it by epsilon transitions,
    /// in increasing order.
    pub fn epsilon_closure(&self, state: usize) -> (r: Vec<usize>)
        requires
            nfa_wf(self@),
            state < self@.states.len(),
        ensures
            strictly_increasing(r@),
            forall|i: int| 0 <= i < r@.len() ==> r@[i] < self@.states.len(),
            forall|t: int|
                #![trigger r@.contains(t as usize)]
                #![trigger reachable(eps_graph(self@), state as int, t)]
                0 <= t < self@.states.len() ==> (r@.contains(t as usize) <==> reachable(eps_graph(self@), state as int, t)),
    {
        let adj = self.eps_adjacency();
        proof {
            let g = eps_graph(self@);
            assert forall|i: int, j: int| 0 <= i < g.len() && 0 <= j < g[i].len() implies #[trigger] g[i][j] < g.len() by {
                assert(state_targets_below(self@.states[i], self@.states.len() as int));
            }
        }
        reachable_from(&adj, state)
    }

    /// The states reached from the given states by a transition on the character class `char_class`,
    /// in increasing order.
    pub fn move_set(&self, states: &[usize], char_class: usize) -> (r: Vec<usize>)
        requires
            forall|i: int| 0 <= i < states@.len() ==> #[trigger] states@[i] < self@.states.len(),
        ensures
            strictly_increasing(r@),
            forall|t: usize| #[trigger] r@.contains(t) <==> exists|i: int, j: int|
                0 <= i < states@.len() && 0 <= j < self@.states[states@[i] as int].trans.len()
                && #[trigger] self@.states[states@[i] as int].trans[j] == (char_class, t),
    {
        let mut r: Vec<usize> = Vec::new();
        let mut i: usize = 0;
        while i < states.len()
            invariant
                i <= states@.len(),
                forall|q: int| 0 <= q < states@.len() ==> #[trigger] states@[q] < self@.states.len(),
                strictly_increasing(r@),
                forall|t: usize| #[trigger] r@.contains(t) <==> exists|q: int, j: int|
                    0 <= q < i && 0 <= j < self@.states[states@[q] as int].trans.len()
                    && #[trigger] self@.states[states@[q] as int].trans[j] == (char_class, t),
            decreases states@.len() - i,
        {
            let st = &self.states[states[i]];
            assert(st@ == self@.states[states@[i as int] as int]);
            let mut k: usize = 0;
            while k < st.transitions.len()
                invariant
                    i < states@.len(),
                    st@ == self@.states[states@[i as int] as int],
                    k <= st.transitions@.len(),
                    strictly_increasing(r@),
                    forall|t: usize| #[trigger] r@.contains(t) <==> (exists|q: int, j: int|
                        0 <= q < i && 0 <= j < self@.states[states@[q] as int].trans.len()
                        && #[trigger] self@.states[states@[q] as int].trans[j] == (char_class, t))
                        || (exists|j: int| 0 <= j < k && #[trigger] st@.trans[j] == (char_class, t)),
                decreases st.transitions@.len() - k,
            {
                let tr = st.transitions[k];
                assert(st@.trans[k as int] == (tr.char_class, tr.target_state));
                if tr.char_class == char_class {
                    insert_sorted(&mut r, tr.target_state);
                }
                k = k + 1;
            }
            i = i + 1;
        }
        r
    }

    /// The character class and target of every transition leaving one of the given states, in
    /// increasing order.
    pub fn get_match_transitions(&self, start_states: &[usize]) -> (r: Vec<(usize, usize)>)
        requires
            forall|i: int| 0 <= i < start_states@.len() ==> #[trigger] start_states@[i] < self@.states.len(),
        ensures
            pairs_strictly_increasing(r@),
            forall|p: (usize, usize)| #[trigger] r@.contains(p) <==> exists|i: int|
                0 <= i < start_states@.len() && #[trigger] self@.states[start_states@[i] as int].trans.contains(p),
    {
        let mut r: Vec<(usize, usize)> = Vec::new();
        let mut i: usize = 0;
        while i < start_states.len()
            invariant
                i <= start_states@.len(),
                forall|q: int| 0 <= q < start_states@.len() ==> #[trigger] start_states@[q] < self@.states.len(),
                pairs_strictly_increasing(r@),
                forall|p: (usize, usize)| #[trigger] r@.contains(p) <==> exists|q: int|
                    0 <= q < i && #[trigger] self@.states[start_states@[q] as int].trans.contains(p),
            decreases start_states@.len() - i,
        {
            let st = &self.states[start_states[i]];
            assert(st@ == self@.states[start_states@[i as int] as int]);
            let mut k: usize = 0;
            while k < st.transitions.len()
                invariant
                    i < start_states@.len(),
                    st@ == self@.states[start_states@[i as int] as int],
                    k <= st.transitions@.len(),
                    pairs_strictly_increasing(r@),
                    forall|p: (usize, usize)| #[trigger] r@.contains(p) <==> (exists|q: int|
                        0 <= q < i && #[trigger] self@.states[start_states@[q] as int].trans.contains(p))
                        || st@.trans.take(k as int).contains(p),
                decreases st.transitions@.len() - k,
            {
                let tr = st.transitions[k];
                assert(st@.trans[k as int] == (tr.char_class, tr.target_state));
                insert_sorted_pair(&mut r, (tr.char_class, tr.target_state));
                proof {
                    assert forall|p: (usize, usize)| st@.trans.take(k + 1).contains(p) <==>
                        (st@.trans.take(k as int).contains(p) || p == (tr.char_class, tr.target_state)) by {
                        if st@.trans.take(k + 1).contains(p) {
                            let w = choose|w: int| 0 <= w < k + 1 && #[trigger] st@.trans.take(k + 1)[w] == p;
                            if w < k {
                                assert(st@.trans.take(k as int)[w] == p);
                            }
                        }
                        if st@.trans.take(k as int).contains(p) {
                            let w = choose|w: int| 0 <= w < k && #[trigger] st@.trans.take(k as int)[w] == p;
                            assert(st@.trans.take(k + 1)[w] == p);
                        }
                        if p == (tr.char_class, tr.target_state) {
                            assert(st@.trans.take(k + 1)[k as int] == p);
                        }
                    }
                }
                k = k + 1;
            }
            assert(st@.trans.take(k as int) =~= st@.trans);
            proof {
                assert forall|p: (usize, usize)| #[trigger] r@.contains(p) <==> exists|q: int|
                    0 <= q < i + 1 && #[trigger] self@.states[start_states@[q] as int].trans.contains(p) by {
                    if r@.contains(p) && !(exists|q: int| 0 <= q < i && #[trigger] self@.states[start_states@[q] as int].trans.contains(p)) {
                        assert(self@.states[start_states@[i as int] as int].trans.contains(p));
                    }
                }
            }
            i = i + 1;
        }
        r
    }

    /// True if the NFA has a state with the given id.
    pub fn contains_state(&self, state: usize) -> (r: bool)
        ensures
            r == exists|i: int| 0 <= i < self@.states.len() && #[trigger] self@.states[i].id == state,
    {
        let mut i: usize = 0;
        while i < self.states.len()
            invariant
                i <= self@.states.len(),
                forall|j: int| 0 <= j < i ==> #[trigger] self@.states[j].id != state,
            decreases self@.states.len() - i,
        {
            assert(self@.states[i as int] == self.states@[i as int]@);
            if self.states[i].state == state {
                assert(self@.states[i as int].id == state);
                return true;
            }
            i = i + 1;
        }
        false
    }

    /// The first state with the given id.
    pub fn find_state(&self, state: usize) -> (r: Option<&NfaState>)
        ensures
            match r {
                Some(st) => st@.id == state && exists|i: int| 0 <= i < self@.states.len() && self@.states[i] == st@,
                None => forall|i: int| 0 <= i < self@.states.len() ==> #[trigger] self@.states[i].id != state,
            },
    {
        let mut i: usize = 0;
        while i < self.states.len()
            invariant
                i <= self@.states.len(),
                forall|j: int| 0 <= j < i ==> #[trigger] self@.states[j].id != state,
            decreases self@.states.len() - i,
        {
            assert(self@.states[i as int] == self.states@[i as int]@);
            if self.states[i].state == state {
                return Some(&self.states[i]);
            }
            i = i + 1;
        }
        None
    }
}


/// Every character transition of the states uses a class id below `m`.
pub open spec fn states_classes_below(states: Seq<NfaStateView>, m: nat) -> bool {
    forall|i: int, j: int|
        0 <= i < states.len() && 0 <= j < states[i].trans.len() ==> #[trigger] states[i].trans[j].0 < m
}

/// The keys of `new` start with the keys of `old`.
pub open spec fn keys_extend(
    old: Seq<(ClassKeyKind, char, Seq<char>)>,
    new: Seq<(ClassKeyKind, char, Seq<char>)>,
) -> bool {
    new.len() >= old.len() && forall|i: int| 0 <= i < old.len() ==> #[trigger] new[i] == old[i]
}

/// Class ids below a bound are below every larger bound.
pub proof fn lemma_classes_below_mono(states: Seq<NfaStateView>, m1: nat, m2: nat)
    requires
        states_classes_below(states, m1),
        m1 <= m2,
    ensures
        states_classes_below(states, m2),
{
}

/// Raising state numbers keeps class ids.
pub proof fn lemma_shift_classes(states: Seq<NfaStateView>, off: usize, m: nat)
    requires
        states_classes_below(states, m),
    ensures
        states_classes_below(shift_states(states, off), m),
{
    let t = shift_states(states, off);
    assert forall|i: int, j: int| 0 <= i < t.len() && 0 <= j < t[i].trans.len() implies #[trigger] t[i].trans[j].0 < m by {
        assert(t[i].trans[j].0 == states[i].trans[j].0);
    }
}

/// The constructions of concatenation, alternation and repetition keep class ids below a bound.
pub proof fn lemma_construction_classes(a: NfaView, b: NfaView, m: nat)
    requires
        nfa_wf(a),
        nfa_wf(b),
        states_classes_below(a.states, m),
        states_classes_below(b.states, m),
    ensures
        states_classes_below(concat_states(a, b), m),
        states_classes_below(alternation_states(a, b), m),
        states_classes_below(zero_or_one_states(a), m),
        states_classes_below(one_or_more_states(a), m),
        states_classes_below(zero_or_more_states(a), m),
{
    lemma_shift_classes(b.states, a.states.len() as usize, m);
    let bs = shift_states(b.states, a.states.len() as usize);
    let c = concat_states(a, b);
    assert forall|i: int, j: int| 0 <= i < c.len() && 0 <= j < c[i].trans.len() implies #[trigger] c[i].trans[j].0 < m by {
        if i < a.states.len() {
            assert(c[i].trans == a.states[i].trans);
        } else {
            assert(c[i] == bs[i - a.states.len()]);
        }
    }
    let d = alternation_states(a, b);
    assert forall|i: int, j: int| 0 <= i < d.len() && 0 <= j < d[i].trans.len() implies #[trigger] d[i].trans[j].0 < m by {
        if i < a.states.len() {
            assert(d[i].trans == a.states[i].trans);
        } else if i < a.states.len() + b.states.len() {
            assert(d[i].trans == bs[i - a.states.len()].trans);
        }
    }
    let e = zero_or_one_states(a);
    assert forall|i: int, j: int| 0 <= i < e.len() && 0 <= j < e[i].trans.len() implies #[trigger] e[i].trans[j].0 < m by {
        if i < a.states.len() {
            assert(e[i].trans == a.states[i].trans);
        }
    }
    let f = one_or_more_states(a);
    assert forall|i: int, j: int| 0 <= i < f.len() && 0 <= j < f[i].trans.len() implies #[trigger] f[i].trans[j].0 < m by {
        if i < a.states.len() {
            assert(f[i].trans == a.states[i].trans);
        }
    }
    let g = zero_or_more_states(a);
    assert forall|i: int, j: int| 0 <= i < g.len() && 0 <= j < g[i].trans.len() implies #[trigger] g[i].trans[j].0 < m by {
        if i < a.states.len() {
            assert(g[i].trans == a.states[i].trans);
        }
    }
}

/// The text of the error for an automaton whose states cannot be numbered with `usize`.
pub open spec fn too_large_text() -> Seq<char> {
    "DFA construction error: "@ + "automaton too large"@
}

/// The error for an automaton whose states cannot be numbered with `usize`.
fn too_large() -> (r: ScnrError)
    ensures
        kind_text(*r.source) == too_large_text(),
{
    let mut v: Vec<char> = Vec::new();
    push_str(&mut v, "automaton too large");
    assert(v@ =~= "automaton too large"@);
    ScnrError::new(ScnrErrorKind::DfaError(DfaError::ConstructionError(string_from_chars(&v))))
}

/// The key of the character class of a literal node with the character `c`: the character and
/// the kind of the literal, so that a character written in different ways gives different keys.
pub fn literal_class_key(ast: &Ast, c: char) -> (r: ClassKey)
    ensures
        r.kind == ClassKeyKind::Literal,
        r.c == c,
{
    ClassKey { kind: ClassKeyKind::Literal, c, text: str_chars(ast_kind_text(ast).as_str()) }
}

/// What the construction of an NFA from a syntax tree guarantees on success.
pub open spec fn built_nfa(nfa: NfaView, m: nat) -> bool {
    nfa_wf(nfa) && states_classes_below(nfa.states, m)
}

/// The registry after a construction extends the registry before it.
pub open spec fn registry_grew(before: CharacterClassRegistry, after: CharacterClassRegistry) -> bool {
    registry_extends(before.keys(), before.class_matchers(), after.keys(), after.class_matchers())
}

/// What the construction of the NFA of a tree gives, with the registry it leaves: a well-formed
/// NFA that reads what the tree reads, is the empty NFA exactly where the tree says so, and
/// keeps the text of the tree (see [built_text]).
pub open spec fn built_from_tree(nfa: Nfa, t: RegexTree, reg: CharacterClassRegistry) -> bool {
    &&& built_nfa(nfa@, reg.keys().len())
    &&& nfa_is_empty(nfa@) == builds_empty_nfa(t)
    &&& nfa.pattern.spec_pattern() == built_text(t)
    &&& reads_as_tree(nfa@, t, reg.keys(), reg.class_matchers())
}

impl Nfa {
    /// Builds an NFA with one transition on the given character class from a fresh NFA.
    fn single_transition(
        mut nfa: Nfa,
        key: ClassKey,
        matcher: CharMatcher,
        char_class_registry: &mut CharacterClassRegistry,
    ) -> (r: Nfa)
        requires
            nfa_wf(nfa@),
            nfa_is_empty(nfa@),
            old(char_class_registry).wf(),
        ensures
            final(char_class_registry).wf(),
            registry_grew(*old(char_class_registry), *final(char_class_registry)),
            built_nfa(r@, final(char_class_registry).keys().len()),
            r.pattern == nfa.pattern,
            exists|cc: usize|
                cc < final(char_class_registry).keys().len() && final(char_class_registry).keys()[cc as int] == key@
                    && r@ == class_nfa(cc),
    {
        let ghost key_view = key@;
        let ghost nfa0 = nfa@;
        let start_state = nfa.end_state();
        let end_state = nfa.new_state();
        nfa.set_end_state(end_state);
        nfa.add_transition(start_state, key, matcher, end_state, char_class_registry);
        proof {
            let n = nfa@.states.len() as int;
            assert(n == 2);
            assert forall|i: int| 0 <= i < n implies (#[trigger] nfa@.states[i]).id == i
                && state_targets_below(nfa@.states[i], n)
                && nfa@.states[i].eps.len() + nfa@.states[i].trans.len() <= 2 by {}
            assert(states_classes_below(nfa@.states, final(char_class_registry).keys().len()));
            let cc = choose|cc: usize|
                cc < char_class_registry.keys().len() && char_class_registry.keys()[cc as int] == key_view
                    && nfa@.states == nfa0.states.push(NfaStateView { id: 1, eps: Seq::empty(), trans: Seq::empty() }).update(0, with_trans(nfa0.states[0], cc, 1));
            assert(nfa@.states[0].trans =~= seq![(cc, 1usize)]);
            assert(nfa@.states[0].eps =~= Seq::<usize>::empty());
            assert(nfa@.states =~= class_nfa(cc).states);
            assert(nfa@ == class_nfa(cc));
        }
        nfa
    }

    /// Concatenates `count` copies of `part` to `nfa`.
    fn concat_copies(nfa: &mut Nfa, part: &Nfa, count: u32, Ghost(m): Ghost<nat>) -> (r: Result<(), ScnrError>)
        requires
            built_nfa(old(nfa)@, m),
            built_nfa(part@, m),
        ensures
            built_nfa(final(nfa)@, m),
            final(nfa).pattern == old(nfa).pattern,
            r is Ok ==> nfa_is_empty(final(nfa)@) == (nfa_is_empty(old(nfa)@) && (count == 0 || nfa_is_empty(part@))),
            r is Ok ==> forall|cls: Seq<CharMatcher>, w: Seq<char>|
                #[trigger] nfa_accepts(final(nfa)@, cls, w) <==> copies_accept(old(nfa)@, part@, count as nat, cls, w),
            r matches Err(e) ==> kind_text(*e.source) == too_large_text(),
    {
        let ghost a0 = nfa@;
        proof {
            assert forall|cls: Seq<CharMatcher>, w: Seq<char>|
                #[trigger] nfa_accepts(nfa@, cls, w) <==> copies_accept(a0, part@, 0, cls, w) by {
                lemma_copies_zero(a0, part@, cls, w);
            }
        }
        let mut i: u32 = 0;
        while i < count
            invariant
                built_nfa(nfa@, m),
                built_nfa(part@, m),
                nfa.pattern == old(nfa).pattern,
                i <= count,
                nfa_is_empty(nfa@) == (nfa_is_empty(a0) && (i == 0 || nfa_is_empty(part@))),
                forall|cls: Seq<CharMatcher>, w: Seq<char>|
                    #[trigger] nfa_accepts(nfa@, cls, w) <==> copies_accept(a0, part@, i as nat, cls, w),
            decreases count - i,
        {
            if nfa.states.len() > usize::MAX - part.states.len() {
                return Err(too_large());
            }
            let copy = part.duplicate();
            proof {
                lemma_construction_classes(nfa@, copy@, m);
            }
            let ghost before = nfa@;
            nfa.concat(copy);
            proof {
                assert forall|cls: Seq<CharMatcher>, w: Seq<char>|
                    #[trigger] nfa_accepts(nfa@, cls, w) <==> copies_accept(a0, part@, (i + 1) as nat, cls, w) by {
                    lemma_copies_step(a0, before, part@, nfa@, i as nat, cls, w);
                }
            }
            i = i + 1;
        }
        Ok(())
    }

    /// Builds the repetition of `nfa2` by the operator from the fresh NFA `nfa`: `?`, `*` and `+`
    /// change `nfa2`, the counted repetitions concatenate copies of it to `nfa`.
    fn repetition_nfa(nfa: Nfa, nfa2: Nfa, op: RepetitionOp, Ghost(m): Ghost<nat>) -> (r: Result<Nfa, ScnrError>)
        requires
            built_nfa(nfa@, m),
            nfa_is_empty(nfa@),
            built_nfa(nfa2@, m),
        ensures
            r matches Ok(res) ==> {
                &&& built_nfa(res@, m)
                &&& nfa_is_empty(res@) == match op {
                    RepetitionOp::Exactly(c) => c == 0 || nfa_is_empty(nfa2@),
                    RepetitionOp::Bounded(least, most) => (least == 0 || nfa_is_empty(nfa2@)) && most <= least,
                    _ => false,
                }
                &&& res.pattern == match op {
                    RepetitionOp::ZeroOrOne | RepetitionOp::ZeroOrMore | RepetitionOp::OneOrMore => nfa2.pattern,
                    _ => nfa.pattern,
                }
                &&& forall|cls: Seq<CharMatcher>, w: Seq<char>|
                    #[trigger] nfa_accepts(res@, cls, w) <==> repeats_accept(nfa2@, op, cls, w)
            },
            r matches Err(e) ==> kind_text(*e.source) == too_large_text(),
    {
        let mut nfa = nfa;
        let mut nfa2 = nfa2;
        if nfa2.states.len() > usize::MAX - 2 {
            return Err(too_large());
        }
        let ghost b = nfa2@;
        let ghost e = nfa@;
        proof {
            lemma_construction_classes(nfa2@, nfa2@, m);
        }
        match op {
            RepetitionOp::ZeroOrOne => {
                nfa2.zero_or_one();
                proof {
                    assert forall|cls: Seq<CharMatcher>, w: Seq<char>|
                        #[trigger] nfa_accepts(nfa2@, cls, w) <==> repeats_accept(b, op, cls, w) by {
                        lemma_zero_or_one_repeats(b, nfa2@, cls, w);
                    }
                }
                Ok(nfa2)
            },
            RepetitionOp::ZeroOrMore => {
                nfa2.zero_or_more();
                proof {
                    assert forall|cls: Seq<CharMatcher>, w: Seq<char>|
                        #[trigger] nfa_accepts(nfa2@, cls, w) <==> repeats_accept(b, op, cls, w) by {
                        lemma_zero_or_more_repeats(b, nfa2@, cls, w);
                    }
                }
                Ok(nfa2)
            },
            RepetitionOp::OneOrMore => {
                nfa2.one_or_more();
                proof {
                    assert forall|cls: Seq<CharMatcher>, w: Seq<char>|
                        #[trigger] nfa_accepts(nfa2@, cls, w) <==> repeats_accept(b, op, cls, w) by {
                        lemma_one_or_more_repeats(b, nfa2@, cls, w);
                    }
                }
                Ok(nfa2)
            },
            RepetitionOp::Exactly(c) => {
                match Self::concat_copies(&mut nfa, &nfa2, c, Ghost(m)) {
                    Ok(()) => {},
                    Err(err) => {
                        return Err(err);
                    },
                }
                proof {
                    assert forall|cls: Seq<CharMatcher>, w: Seq<char>|
                        #[trigger] nfa_accepts(nfa@, cls, w) <==> repeats_accept(b, op, cls, w) by {
                        lemma_exactly_repeats(e, b, c, cls, w);
                    }
                }
                Ok(nfa)
            },
            RepetitionOp::AtLeast(c) => {
                match Self::concat_copies(&mut nfa, &nfa2, c, Ghost(m)) {
                    Ok(()) => {},
                    Err(err) => {
                        return Err(err);
                    },
                }
                let mut nfa_zero_or_more = nfa2.duplicate();
                nfa_zero_or_more.zero_or_more();
                if nfa.states.len() > usize::MAX - nfa_zero_or_more.states.len() {
                    return Err(too_large());
                }
                proof {
                    lemma_construction_classes(nfa@, nfa_zero_or_more@, m);
                }
                let ghost a = nfa@;
                let ghost z = nfa_zero_or_more@;
                nfa.concat(nfa_zero_or_more);
                proof {
                    assert forall|cls: Seq<CharMatcher>, w: Seq<char>|
                        #[trigger] nfa_accepts(nfa@, cls, w) <==> repeats_accept(b, op, cls, w) by {
                        lemma_at_least_repeats(e, b, a, z, nfa@, c, cls, w);
                    }
                }
                Ok(nfa)
            },
            RepetitionOp::Bounded(least, most) => {
                match Self::concat_copies(&mut nfa, &nfa2, least, Ghost(m)) {
                    Ok(()) => {},
                    Err(err) => {
                        return Err(err);
                    },
                }
                let ghost a = nfa@;
                let mut nfa_zero_or_one = nfa2.duplicate();
                nfa_zero_or_one.zero_or_one();
                let ghost o = nfa_zero_or_one@;
                let count = if most > least { most - least } else { 0 };
                match Self::concat_copies(&mut nfa, &nfa_zero_or_one, count, Ghost(m)) {
                    Ok(()) => {},
                    Err(err) => {
                        return Err(err);
                    },
                }
                proof {
                    assert(count as nat == optional_copies(least, most));
                    assert forall|cls: Seq<CharMatcher>, w: Seq<char>|
                        #[trigger] nfa_accepts(nfa@, cls, w) <==> repeats_accept(b, op, cls, w) by {
                        lemma_bounded_repeats(e, b, a, o, nfa@, least, most, cls, w);
                    }
                }
                Ok(nfa)
            },
        }
    }

    /// Builds the NFA of a regular expression tree by Thompson's construction, registering the
    /// character classes of its transitions, depth first and left to right.
    ///
    /// The construction stops at the first refused part, and at the first repetition that is not
    /// greedy once its tree is built (see [tree_refusal]). It reads what the tree reads (see
    /// [tree_language]) under the registry it leaves and under every registry that extends it.
    pub fn try_from_tree(
        tree: RegexTree,
        char_class_registry: &mut CharacterClassRegistry,
    ) -> (r: Result<Nfa, ScnrError>)
        requires
            old(char_class_registry).wf(),
        ensures
            final(char_class_registry).wf(),
            registry_grew(*old(char_class_registry), *final(char_class_registry)),
            r matches Ok(nfa) ==> tree_refusal(tree) is None
                && built_from_tree(nfa, tree, *final(char_class_registry)),
            r matches Ok(nfa) ==> forall|w: Seq<char>|
                nfa_accepts(nfa@, final(char_class_registry).class_matchers(), w)
                    <==> tree_accepts(tree, final(char_class_registry).keys(), final(char_class_registry).class_matchers(), w),
            r matches Err(e) ==> tree_refusal(tree) == Some(kind_text(*e.source))
                || kind_text(*e.source) == too_large_text(),
            tree_refusal(tree) is Some ==> r is Err,
        decreases tree,
    {
        let ghost t = tree;
        proof {
            char_class_registry.lemma_views();
            lemma_registry_extends(char_class_registry.keys(), char_class_registry.class_matchers(),
                char_class_registry.keys(), char_class_registry.class_matchers(),
                char_class_registry.keys(), char_class_registry.class_matchers());
        }
        let RegexTree { text, node } = tree;
        let mut nfa = Nfa::new();
        nfa.set_pattern(text.as_str());
        let r = match node {
            RegexNode::Empty => {
                proof {
                    let keys = char_class_registry.keys();
                    let cls = char_class_registry.class_matchers();
                    assert forall|keys2: Seq<KeyView>, cls2: Seq<CharMatcher>, w: Seq<char>|
                        registry_extends(keys, cls, keys2, cls2) implies (nfa_accepts(nfa@, cls2, w) <==> tree_accepts(t, keys2, cls2, w)) by {
                        lemma_empty_language(nfa@, cls2, w);
                        if w.len() == 0 {
                            assert(w =~= Seq::<char>::empty());
                        }
                    }
                }
                Ok(nfa)
            },
            RegexNode::Class(key, matcher) => {
                let ghost key_view = key@;
                let res = Self::single_transition(nfa, key, matcher, char_class_registry);
                proof {
                    let keys = char_class_registry.keys();
                    let cls = char_class_registry.class_matchers();
                    let cc = choose|cc: usize| cc < keys.len() && keys[cc as int] == key_view && res@ == class_nfa(cc);
                    assert forall|keys2: Seq<KeyView>, cls2: Seq<CharMatcher>, w: Seq<char>|
                        registry_extends(keys, cls, keys2, cls2) implies (nfa_accepts(res@, cls2, w) <==> tree_accepts(t, keys2, cls2, w)) by {
                        lemma_class_language(cc, cls2, w);
                        assert(keys2[cc as int] == key_view);
                        if w.len() == 1 && registered_has(keys2, cls2, key_view, w[0]) {
                            let i = choose|i: int| 0 <= i < keys2.len() && i < cls2.len() && keys2[i] == key_view
                                && #[trigger] matcher_has(cls2[i], w[0]);
                            assert(i == cc);
                        }
                        if w.len() == 1 && cc < cls2.len() && matcher_has(cls2[cc as int], w[0]) {
                            assert(registered_has(keys2, cls2, key_view, w[0]));
                        }
                    }
                }
                Ok(res)
            },
            RegexNode::Repetition(sub, op, greedy) => {
                let ghost sub_tree = *sub;
                let nfa2 = match Self::try_from_tree(*sub, char_class_registry) {
                    Ok(nfa2) => nfa2,
                    Err(e) => {
                        return Err(e);
                    },
                };
                if !greedy {
                    let mut v: Vec<char> = str_chars(text.as_str());
                    push_str(&mut v, ": Non-greedy repetionions. Consider using different scanner modes instead.");
                    let e = unsupported(v);
                    proof {
                        assert(kind_text(*e.source) =~= non_greedy_text(text@));
                    }
                    return Err(e);
                }
                let ghost m = char_class_registry.keys().len();
                let ghost b = nfa2@;
                match Self::repetition_nfa(nfa, nfa2, op, Ghost(m)) {
                    Ok(res) => {
                        proof {
                            let keys = char_class_registry.keys();
                            let cls = char_class_registry.class_matchers();
                            assert forall|keys2: Seq<KeyView>, cls2: Seq<CharMatcher>, w: Seq<char>|
                                registry_extends(keys, cls, keys2, cls2) implies (nfa_accepts(res@, cls2, w) <==> tree_accepts(t, keys2, cls2, w)) by {
                                lemma_repeats_tree(b, sub_tree, op, keys, cls, keys2, cls2, w);
                            }
                        }
                        Ok(res)
                    },
                    Err(e) => Err(e),
                }
            },
            RegexNode::Alternation(alts) => {
                let ghost all = alts@;
                let res = Self::alternatives_nfa(nfa, alts, char_class_registry);
                proof {
                    if res is Ok {
                        let keys = char_class_registry.keys();
                        let cls = char_class_registry.class_matchers();
                        assert forall|keys2: Seq<KeyView>, cls2: Seq<CharMatcher>, w: Seq<char>|
                            registry_extends(keys, cls, keys2, cls2) implies (nfa_accepts(res->Ok_0@, cls2, w) <==> tree_accepts(t, keys2, cls2, w)) by {
                            assert(nfa_accepts(res->Ok_0@, cls2, w) <==> alternatives_accept(all, keys2, cls2, w));
                        }
                    }
                }
                res
            },
            RegexNode::Concat(parts) => {
                let ghost all = parts@;
                let res = Self::sequence_nfa(nfa, parts, char_class_registry);
                proof {
                    if res is Ok {
                        let keys = char_class_registry.keys();
                        let cls = char_class_registry.class_matchers();
                        assert forall|keys2: Seq<KeyView>, cls2: Seq<CharMatcher>, w: Seq<char>|
                            registry_extends(keys, cls, keys2, cls2) implies (nfa_accepts(res->Ok_0@, cls2, w) <==> tree_accepts(t, keys2, cls2, w)) by {
                            assert(nfa_accepts(res->Ok_0@, cls2, w) <==> sequence_accepts(all, keys2, cls2, w));
                        }
                    }
                }
                res
            },
            RegexNode::Refused(e) => Err(e),
        };
        proof {
            if r is Ok {
                char_class_registry.lemma_views();
                lemma_registry_extends(char_class_registry.keys(), char_class_registry.class_matchers(),
                    char_class_registry.keys(), char_class_registry.class_matchers(),
                    char_class_registry.keys(), char_class_registry.class_matchers());
            }
        }
        r
    }

    /// Builds the NFA of alternatives from the fresh NFA `nfa`, one alternative after the other.
    fn alternatives_nfa(
        nfa: Nfa,
        alts: Vec<RegexTree>,
        char_class_registry: &mut CharacterClassRegistry,
    ) -> (r: Result<Nfa, ScnrError>)
        requires
            nfa_wf(nfa@),
            nfa_is_empty(nfa@),
            old(char_class_registry).wf(),
        ensures
            final(char_class_registry).wf(),
            registry_grew(*old(char_class_registry), *final(char_class_registry)),
            r matches Ok(res) ==> {
                &&& sequence_refusal(alts@) is None
                &&& built_nfa(res@, final(char_class_registry).keys().len())
                &&& nfa_is_empty(res@) == all_build_empty_nfa(alts@)
                &&& res.pattern == nfa.pattern
                &&& forall|keys2: Seq<KeyView>, cls2: Seq<CharMatcher>, w: Seq<char>|
                    #![trigger registry_extends(final(char_class_registry).keys(), final(char_class_registry).class_matchers(), keys2, cls2), nfa_accepts(res@, cls2, w)]
                    registry_extends(final(char_class_registry).keys(), final(char_class_registry).class_matchers(), keys2, cls2)
                        ==> (nfa_accepts(res@, cls2, w) <==> alternatives_accept(alts@, keys2, cls2, w))
            },
            r matches Err(e) ==> sequence_refusal(alts@) == Some(kind_text(*e.source))
                || kind_text(*e.source) == too_large_text(),
            sequence_refusal(alts@) is Some ==> r is Err,
        decreases alts@,
    {
        let ghost all = alts@;
        let ghost keys0 = char_class_registry.keys();
        let ghost cls0 = char_class_registry.class_matchers();
        let mut acc = nfa;
        let total = alts.len();
        let mut rest = alts;
        let mut i: usize = 0;
        proof {
            char_class_registry.lemma_views();
            lemma_registry_extends(keys0, cls0, keys0, cls0, keys0, cls0);
            assert(all.take(0) =~= Seq::<RegexTree>::empty());
            assert forall|keys2: Seq<KeyView>, cls2: Seq<CharMatcher>, w: Seq<char>|
                #![trigger registry_extends(keys0, cls0, keys2, cls2), nfa_accepts(acc@, cls2, w)]
                registry_extends(keys0, cls0, keys2, cls2) implies (nfa_accepts(acc@, cls2, w) <==> alternatives_accept(all.take(0), keys2, cls2, w)) by {
                lemma_empty_language(acc@, cls2, w);
                if w.len() == 0 {
                    assert(w =~= Seq::<char>::empty());
                }
            }
        }
        while rest.len() > 0
            invariant
                all == alts@,
                all.len() == total,
                keys0 == old(char_class_registry).keys(),
                cls0 == old(char_class_registry).class_matchers(),
                i <= all.len(),
                rest@ == all.subrange(i as int, all.len() as int),
                char_class_registry.wf(),
                registry_extends(keys0, cls0, char_class_registry.keys(), char_class_registry.class_matchers()),
                built_nfa(acc@, char_class_registry.keys().len()),
                acc.pattern == nfa.pattern,
                sequence_refusal(all.take(i as int)) is None,
                nfa_is_empty(acc@) == all_build_empty_nfa(all.take(i as int)),
                forall|keys2: Seq<KeyView>, cls2: Seq<CharMatcher>, w: Seq<char>|
                    #![trigger registry_extends(char_class_registry.keys(), char_class_registry.class_matchers(), keys2, cls2), nfa_accepts(acc@, cls2, w)]
                    registry_extends(char_class_registry.keys(), char_class_registry.class_matchers(), keys2, cls2)
                        ==> (nfa_accepts(acc@, cls2, w) <==> alternatives_accept(all.take(i as int), keys2, cls2, w)),
            decreases rest@.len(),
        {
            let part = rest.remove(0);
            let ghost p = part;
            assert(p == all[i as int]);
            let ghost keys_a = char_class_registry.keys();
            let ghost cls_a = char_class_registry.class_matchers();
            let ghost prev = all.take(i as int);
            assert(all.take(i + 1) =~= prev.push(p));
            assert(all.take(i + 1).drop_last() =~= prev);
            assert(all.take(i + 1).last() == p);
            assert(decreases_to!(all => p));
            let nfa2 = match Self::try_from_tree(part, char_class_registry) {
                Ok(nfa2) => nfa2,
                Err(e) => {
                    proof {
                        lemma_registry_extends(keys0, cls0, keys_a, cls_a, char_class_registry.keys(), char_class_registry.class_matchers());
                        if tree_refusal(p) == Some(kind_text(*e.source)) {
                            lemma_refusal_prefix(all, i + 1);
                        }
                    }
                    return Err(e);
                },
            };
            proof {
                lemma_registry_extends(keys0, cls0, keys_a, cls_a, char_class_registry.keys(), char_class_registry.class_matchers());
            }
            if nfa2.states.len() > usize::MAX - 2 || acc.states.len() > usize::MAX - 2 - nfa2.states.len() {
                return Err(too_large());
            }
            proof {
                lemma_registry_extends(keys0, cls0, keys_a, cls_a, char_class_registry.keys(), char_class_registry.class_matchers());
                lemma_classes_below_mono(acc@.states, keys_a.len(), char_class_registry.keys().len());
                lemma_construction_classes(acc@, nfa2@, char_class_registry.keys().len());
            }
            let ghost before = acc@;
            let ghost b = nfa2@;
            acc.alternation(nfa2);
            proof {
                lemma_alternatives_step(before, b, acc@, prev, p, keys_a, cls_a,
                    char_class_registry.keys(), char_class_registry.class_matchers());
            }
            i = i + 1;
        }
        proof {
            assert(all.take(i as int) =~= all);
        }
        Ok(acc)
    }

    /// Builds the NFA of a sequence of trees from the fresh NFA `nfa`, one tree after the other.
    fn sequence_nfa(
        nfa: Nfa,
        parts: Vec<RegexTree>,
        char_class_registry: &mut CharacterClassRegistry,
    ) -> (r: Result<Nfa, ScnrError>)
        requires
            nfa_wf(nfa@),
            nfa_is_empty(nfa@),
            old(char_class_registry).wf(),
        ensures
            final(char_class_registry).wf(),
            registry_grew(*old(char_class_registry), *final(char_class_registry)),
            r matches Ok(res) ==> {
                &&& sequence_refusal(parts@) is None
                &&& built_nfa(res@, final(char_class_registry).keys().len())
                &&& nfa_is_empty(res@) == all_build_empty_nfa(parts@)
                &&& res.pattern == nfa.pattern
                &&& forall|keys2: Seq<KeyView>, cls2: Seq<CharMatcher>, w: Seq<char>|
                    #![trigger registry_extends(final(char_class_registry).keys(), final(char_class_registry).class_matchers(), keys2, cls2), nfa_accepts(res@, cls2, w)]
                    registry_extends(final(char_class_registry).keys(), final(char_class_registry).class_matchers(), keys2, cls2)
                        ==> (nfa_accepts(res@, cls2, w) <==> sequence_accepts(parts@, keys2, cls2, w))
            },
            r matches Err(e) ==> sequence_refusal(parts@) == Some(kind_text(*e.source))
                || kind_text(*e.source) == too_large_text(),
            sequence_refusal(parts@) is Some ==> r is Err,
        decreases parts@,
    {
        let ghost all = parts@;
        let ghost keys0 = char_class_registry.keys();
        let ghost cls0 = char_class_registry.class_matchers();
        let mut acc = nfa;
        let total = parts.len();
        let mut rest = parts;
        let mut i: usize = 0;
        proof {
            char_class_registry.lemma_views();
            lemma_registry_extends(keys0, cls0, keys0, cls0, keys0, cls0);
            assert(all.take(0) =~= Seq::<RegexTree>::empty());
            assert forall|keys2: Seq<KeyView>, cls2: Seq<CharMatcher>, w: Seq<char>|
                #![trigger registry_extends(keys0, cls0, keys2, cls2), nfa_accepts(acc@, cls2, w)]
                registry_extends(keys0, cls0, keys2, cls2) implies (nfa_accepts(acc@, cls2, w) <==> sequence_accepts(all.take(0), keys2, cls2, w)) by {
                lemma_empty_language(acc@, cls2, w);
                if w.len() == 0 {
                    assert(w =~= Seq::<char>::empty());
                }
            }
        }
        while rest.len() > 0
            invariant
                all == parts@,
                all.len() == total,
                keys0 == old(char_class_registry).keys(),
                cls0 == old(char_class_registry).class_matchers(),
                i <= all.len(),
                rest@ == all.subrange(i as int, all.len() as int),
                char_class_registry.wf(),
                registry_extends(keys0, cls0, char_class_registry.keys(), char_class_registry.class_matchers()),
                built_nfa(acc@, char_class_registry.keys().len()),
                acc.pattern == nfa.pattern,
                sequence_refusal(all.take(i as int)) is None,
                nfa_is_empty(acc@) == all_build_empty_nfa(all.take(i as int)),
                forall|keys2: Seq<KeyView>, cls2: Seq<CharMatcher>, w: Seq<char>|
                    #![trigger registry_extends(char_class_registry.keys(), char_class_registry.class_matchers(), keys2, cls2), nfa_accepts(acc@, cls2, w)]
                    registry_extends(char_class_registry.keys(), char_class_registry.class_matchers(), keys2, cls2)
                        ==> (nfa_accepts(acc@, cls2, w) <==> sequence_accepts(all.take(i as int), keys2, cls2, w)),
            decreases rest@.len(),
        {
            let part = rest.remove(0);
            let ghost p = part;
            assert(p == all[i as int]);
            let ghost keys_a = char_class_registry.keys();
            let ghost cls_a = char_class_registry.class_matchers();
            let ghost prev = all.take(i as int);
            assert(all.take(i + 1) =~= prev.push(p));
            assert(all.take(i + 1).drop_last() =~= prev);
            assert(all.take(i + 1).last() == p);
            assert(decreases_to!(all => p));
            let nfa2 = match Self::try_from_tree(part, char_class_registry) {
                Ok(nfa2) => nfa2,
                Err(e) => {
                    proof {
                        lemma_registry_extends(keys0, cls0, keys_a, cls_a, char_class_registry.keys(), char_class_registry.class_matchers());
                        if tree_refusal(p) == Some(kind_text(*e.source)) {
                            lemma_refusal_prefix(all, i + 1);
                        }
                    }
                    return Err(e);
                },
            };
            proof {
                lemma_registry_extends(keys0, cls0, keys_a, cls_a, char_class_registry.keys(), char_class_registry.class_matchers());
            }
            if acc.states.len() > usize::MAX - nfa2.states.len() {
                return Err(too_large());
            }
            proof {
                lemma_registry_extends(keys0, cls0, keys_a, cls_a, char_class_registry.keys(), char_class_registry.class_matchers());
                lemma_classes_below_mono(acc@.states, keys_a.len(), char_class_registry.keys().len());
                lemma_construction_classes(acc@, nfa2@, char_class_registry.keys().len());
            }
            let ghost before = acc@;
            let ghost b = nfa2@;
            acc.concat(nfa2);
            proof {
                lemma_sequence_step(before, b, acc@, prev, p, keys_a, cls_a,
                    char_class_registry.keys(), char_class_registry.class_matchers());
            }
            i = i + 1;
        }
        proof {
            assert(all.take(i as int) =~= all);
        }
        Ok(acc)
    }

    /// Builds the NFA of a syntax tree by Thompson's construction, registering the character
    /// classes of its transitions: the NFA of the regular expression tree of the syntax tree
    /// (see [Self::try_from_tree]).
    ///
    /// Flags, assertions, non-greedy repetitions and flags in non-capturing groups are not
    /// supported.
    pub fn try_from_ast(
        ast: Ast,
        char_class_registry: &mut CharacterClassRegistry,
    ) -> (r: Result<Nfa, ScnrError>)
        requires
            old(char_class_registry).wf(),
        ensures
            final(char_class_registry).wf(),
            keys_extend(old(char_class_registry).keys(), final(char_class_registry).keys()),
            registry_grew(*old(char_class_registry), *final(char_class_registry)),
            r matches Ok(nfa) ==> exists|t: RegexTree|
                tree_refusal(t) is None && #[trigger] built_from_tree(nfa, t, *final(char_class_registry)),
            r matches Err(e) ==> exists|t: RegexTree| #[trigger] tree_refusal(t) == Some(kind_text(*e.source))
                || kind_text(*e.source) == too_large_text(),
    {
        let tree = regex_tree(&ast, usize::MAX);
        let ghost t = tree;
        let r = Self::try_from_tree(tree, char_class_registry);
        proof {
            if r is Ok {
                assert(built_from_tree(r->Ok_0, t, *char_class_registry));
            }
            if r is Err {
                assert(tree_refusal(t) == Some(kind_text(*r->Err_0.source)) || kind_text(*r->Err_0.source) == too_large_text());
            }
        }
        r
    }
}

} // verus!
