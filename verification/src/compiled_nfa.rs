//! Compiled automata: the states of one or more NFAs in one table together with the epsilon
//! closure of every state, and their simulation on an input.
//!
//! The simulation keeps the set of states the automaton can be in after each character read.
//! It is the basis of the longest match search of the scanner and of the lookahead checks.
use vstd::prelude::*;
use crate::char_matcher::{matcher_has, CharMatcher};
use crate::automaton_language::pattern_nfa;
use crate::character_class::{lemma_registry_extends, registry_extends, CharacterClassRegistry, KeyView};
use crate::graph::{adj_view, adj_wf, lemma_reachable_in_range, path_in, reachable, reachable_from};
use crate::multi_pattern_nfa::{
    lemma_nfa_offset_mono, lemma_patterns_from_trees_extend, nfa_at, nfa_offset, nfas_view, pattern_from_tree, MultiPatternNfa,
};
use crate::nfa::{built_from_tree, keys_extend, registry_grew, EpsilonTransition, Nfa, NfaState, NfaStateView};
use crate::errors::{ScnrError, ScnrErrorKind};
use crate::pattern::{pattern_parses, Lookahead, Pattern};
use crate::regex_ast::{parse_outcome, parse_regex_syntax};
use crate::regex_tree::{tree_refusal, RegexTree};
use crate::text::{push_str, string_from_chars};

verus! {

/// The abstract value of a state of a compiled automaton.
pub struct AutomatonStateView {
    /// The targets of the epsilon transitions.
    pub eps: Seq<usize>,
    /// The character class and target of the character transitions.
    pub trans: Seq<(usize, usize)>,
    /// The states reachable by epsilon transitions.
    pub closure: Seq<usize>,
    /// The number of the pattern the state accepts, if any.
    pub accept: Option<usize>,
}

/// A state of a compiled automaton.
#[derive(Debug, Clone)]
pub struct AutomatonState {
    /// The targets of the epsilon transitions.
    pub epsilon_transitions: Vec<usize>,
    /// The character class and target of the character transitions.
    pub transitions: Vec<(usize, usize)>,
    /// The states reachable from this one by epsilon transitions, itself included.
    pub closure: Vec<usize>,
    /// The number of the pattern the state accepts, if any.
    pub accept: Option<usize>,
}

impl View for AutomatonState {
    type V = AutomatonStateView;

    open spec fn view(&self) -> AutomatonStateView {
        AutomatonStateView {
            eps: self.epsilon_transitions@,
            trans: self.transitions@,
            closure: self.closure@,
            accept: self.accept,
        }
    }
}

/// A compiled automaton; its start state is state 0.
#[derive(Debug, Clone)]
pub struct Automaton {
    /// The states; the state number is the index.
    pub states: Vec<AutomatonState>,
}

impl View for Automaton {
    type V = Seq<AutomatonStateView>;

    open spec fn view(&self) -> Seq<AutomatonStateView> {
        self.states@.map_values(|s: AutomatonState| s@)
    }
}

/// The graph of the epsilon transitions.
pub open spec fn aut_eps(a: Seq<AutomatonStateView>) -> Seq<Seq<usize>> {
    a.map_values(|s: AutomatonStateView| s.eps)
}

/// All transitions lead to states of the automaton, and the closure of each state lists exactly
/// the states reachable from it by epsilon transitions.
pub open spec fn aut_wf(a: Seq<AutomatonStateView>) -> bool {
    &&& a.len() >= 1
    &&& forall|s: int, j: int| 0 <= s < a.len() && 0 <= j < a[s].eps.len() ==> #[trigger] a[s].eps[j] < a.len()
    &&& forall|s: int, j: int| 0 <= s < a.len() && 0 <= j < a[s].trans.len() ==> #[trigger] a[s].trans[j].1 < a.len()
    &&& forall|s: int, j: int| 0 <= s < a.len() && 0 <= j < a[s].closure.len() ==> #[trigger] a[s].closure[j] < a.len()
    &&& forall|s: int, t: int|
        #![trigger a[s].closure.contains(t as usize)]
        #![trigger reachable(aut_eps(a), s, t)]
        0 <= s < a.len() && 0 <= t < a.len() ==> (a[s].closure.contains(t as usize) <==> reachable(aut_eps(a), s, t))
}

/// The class with id `cc` of the class ranges `cls` contains `c`; an unknown id contains nothing.
pub open spec fn class_has(cls: Seq<CharMatcher>, cc: usize, c: char) -> bool {
    cc < cls.len() && matcher_has(cls[cc as int], c)
}

/// The states reached from a state of `prev` by a transition on `c` followed by epsilon
/// transitions contain `u`.
pub open spec fn step_from(
    a: Seq<AutomatonStateView>,
    cls: Seq<CharMatcher>,
    prev: Set<int>,
    c: char,
    u: int,
) -> bool {
    exists|s: int, j: int|
        #![trigger prev.contains(s), a[s].trans[j]]
        prev.contains(s) && 0 <= s < a.len() && 0 <= j < a[s].trans.len() && class_has(cls, a[s].trans[j].0, c)
            && reachable(aut_eps(a), a[s].trans[j].1 as int, u)
}

/// The states the automaton can be in after reading the `k` characters of `input` from `pos`
/// on: the epsilon closure of the start state before any character, and after each character
/// the states reached from the states before by a transition on it followed by epsilon
/// transitions.
pub open spec fn run_set(
    a: Seq<AutomatonStateView>,
    cls: Seq<CharMatcher>,
    input: Seq<char>,
    pos: int,
    k: nat,
) -> Set<int>
    decreases k,
{
    if k == 0 {
        Set::new(|u: int| reachable(aut_eps(a), 0, u))
    } else {
        let prev = run_set(a, cls, input, pos, (k - 1) as nat);
        Set::new(|u: int| step_from(a, cls, prev, input[pos + k - 1], u))
    }
}

/// The automaton can be in state `u` after reading the `k` characters of `input` from `pos` on.
pub open spec fn in_run(
    a: Seq<AutomatonStateView>,
    cls: Seq<CharMatcher>,
    input: Seq<char>,
    pos: int,
    k: nat,
    u: int,
) -> bool {
    run_set(a, cls, input, pos, k).contains(u)
}

/// The state `u` is reached from a state of the set `cur` by a transition on `c` followed by
/// epsilon transitions.
pub open spec fn step_has(
    a: Seq<AutomatonStateView>,
    cls: Seq<CharMatcher>,
    cur: Seq<bool>,
    c: char,
    u: int,
) -> bool {
    exists|s: int, j: int|
        #![trigger cur[s], a[s].trans[j]]
        0 <= s < a.len() && cur[s] && 0 <= j < a[s].trans.len() && class_has(cls, a[s].trans[j].0, c)
            && reachable(aut_eps(a), a[s].trans[j].1 as int, u)
}

/// Some accepting state is reached after reading the `k` characters from `pos` on.
pub open spec fn accepts_after(
    a: Seq<AutomatonStateView>,
    cls: Seq<CharMatcher>,
    input: Seq<char>,
    pos: int,
    k: nat,
) -> bool {
    exists|u: int| 0 <= u < a.len() && #[trigger] in_run(a, cls, input, pos, k, u) && a[u].accept is Some
}

/// The automaton matches a non-empty prefix of the input from `pos` on.
pub open spec fn matches_nonempty(
    a: Seq<AutomatonStateView>,
    cls: Seq<CharMatcher>,
    input: Seq<char>,
    pos: int,
) -> bool {
    exists|k: nat| 1 <= k && pos + k <= input.len() && #[trigger] accepts_after(a, cls, input, pos, k)
}

/// Every state the automaton can be in is a state of it.
pub proof fn lemma_run_in_range(
    a: Seq<AutomatonStateView>,
    cls: Seq<CharMatcher>,
    input: Seq<char>,
    pos: int,
    k: nat,
    u: int,
)
    requires
        aut_wf(a),
        in_run(a, cls, input, pos, k, u),
    ensures
        0 <= u < a.len(),
{
    lemma_eps_wf(a);
    if k == 0 {
        lemma_reachable_in_range(aut_eps(a), 0, u);
    } else {
        let prev = run_set(a, cls, input, pos, (k - 1) as nat);
        assert(step_from(a, cls, prev, input[pos + k - 1], u));
        let (s, j) = choose|s: int, j: int|
            #![trigger prev.contains(s), a[s].trans[j]]
            prev.contains(s) && 0 <= s < a.len() && 0 <= j < a[s].trans.len()
                && class_has(cls, a[s].trans[j].0, input[pos + k - 1])
                && reachable(aut_eps(a), a[s].trans[j].1 as int, u);
        assert(a[s].trans[j].1 < a.len());
        lemma_reachable_in_range(aut_eps(a), a[s].trans[j].1 as int, u);
    }
}

/// The epsilon graph of a well-formed automaton stays in the automaton.
pub proof fn lemma_eps_wf(a: Seq<AutomatonStateView>)
    requires
        aut_wf(a),
    ensures
        adj_wf(aut_eps(a)),
        aut_eps(a).len() == a.len(),
{
    let g = aut_eps(a);
    assert forall|i: int, j: int| 0 <= i < g.len() && 0 <= j < g[i].len() implies #[trigger] g[i][j] < g.len() by {
        assert(g[i] == a[i].eps);
    }
}

/// Once no state can be reached, none can be reached after more characters.
pub proof fn lemma_run_dead(
    a: Seq<AutomatonStateView>,
    cls: Seq<CharMatcher>,
    input: Seq<char>,
    pos: int,
    k: nat,
    l: nat,
    u: int,
)
    requires
        forall|v: int| !#[trigger] in_run(a, cls, input, pos, k, v),
        k <= l,
    ensures
        !in_run(a, cls, input, pos, l, u),
    decreases l - k,
{
    if k < l {
        let prev = run_set(a, cls, input, pos, (l - 1) as nat);
        assert forall|v: int| !#[trigger] prev.contains(v) by {
            lemma_run_dead(a, cls, input, pos, k, (l - 1) as nat, v);
        }
        if in_run(a, cls, input, pos, l, u) {
            assert(step_from(a, cls, prev, input[pos + l - 1], u));
        }
    }
}

/// A set of states as a bitmap: `set[u]` holds exactly for the states reached after `k`
/// characters.
pub open spec fn is_run_set(
    a: Seq<AutomatonStateView>,
    cls: Seq<CharMatcher>,
    input: Seq<char>,
    pos: int,
    k: nat,
    set: Seq<bool>,
) -> bool {
    &&& set.len() == a.len()
    &&& forall|u: int| 0 <= u < a.len() ==> (#[trigger] set[u] <==> in_run(a, cls, input, pos, k, u))
}

/// One step of the simulation computes the set of states after one more character.
pub proof fn lemma_run_step(
    a: Seq<AutomatonStateView>,
    cls: Seq<CharMatcher>,
    input: Seq<char>,
    pos: int,
    k: nat,
    cur: Seq<bool>,
    next: Seq<bool>,
)
    requires
        aut_wf(a),
        0 <= pos,
        pos + k < input.len(),
        is_run_set(a, cls, input, pos, k, cur),
        next.len() == a.len(),
        forall|u: int| 0 <= u < a.len() ==> (#[trigger] next[u] <==> step_has(a, cls, cur, input[pos + k], u)),
    ensures
        is_run_set(a, cls, input, pos, k + 1, next),
{
    let prev = run_set(a, cls, input, pos, k);
    assert(run_set(a, cls, input, pos, k + 1) == Set::new(|u: int| step_from(a, cls, prev, input[pos + k], u)));
    assert forall|u: int| 0 <= u < a.len() implies (#[trigger] next[u] <==> in_run(a, cls, input, pos, k + 1, u)) by {
        if next[u] {
            let (s, j) = choose|s: int, j: int|
                #![trigger cur[s], a[s].trans[j]]
                0 <= s < a.len() && cur[s] && 0 <= j < a[s].trans.len() && class_has(cls, a[s].trans[j].0, input[pos + k])
                    && reachable(aut_eps(a), a[s].trans[j].1 as int, u);
            assert(prev.contains(s));
            assert(step_from(a, cls, prev, input[pos + k], u));
        }
        if in_run(a, cls, input, pos, k + 1, u) {
            assert(step_from(a, cls, prev, input[pos + k], u));
            let (s, j) = choose|s: int, j: int|
                #![trigger prev.contains(s), a[s].trans[j]]
                prev.contains(s) && 0 <= s < a.len() && 0 <= j < a[s].trans.len()
                    && class_has(cls, a[s].trans[j].0, input[pos + k])
                    && reachable(aut_eps(a), a[s].trans[j].1 as int, u);
            assert(in_run(a, cls, input, pos, k, s));
            assert(cur[s]);
            assert(step_has(a, cls, cur, input[pos + k], u));
        }
    }
}

/// A bitmap of `n` entries, none set.
pub fn falses(n: usize) -> (r: Vec<bool>)
    ensures
        r@.len() == n,
        forall|i: int| 0 <= i < n ==> !#[trigger] r@[i],
{
    let mut r: Vec<bool> = Vec::new();
    let mut i: usize = 0;
    while i < n
        invariant
            i <= n,
            r@.len() == i,
            forall|j: int| 0 <= j < i ==> !#[trigger] r@[j],
        decreases n - i,
    {
        r.push(false);
        i = i + 1;
    }
    r
}

/// Sets the entries of all listed indices.
pub fn mark_all(set: &mut Vec<bool>, list: &Vec<usize>)
    requires
        forall|i: int| 0 <= i < list@.len() ==> #[trigger] list@[i] < old(set)@.len(),
    ensures
        final(set)@.len() == old(set)@.len(),
        forall|u: int| 0 <= u < old(set)@.len() ==> (#[trigger] final(set)@[u] <==> (old(set)@[u] || list@.contains(u as usize))),
{
    let ghost n = set.len();
    let mut q: usize = 0;
    while q < list.len()
        invariant
            q <= list@.len(),
            n == old(set)@.len(),
            set@.len() == old(set)@.len(),
            forall|i: int| 0 <= i < list@.len() ==> #[trigger] list@[i] < old(set)@.len(),
            forall|u: int| 0 <= u < old(set)@.len() ==> (#[trigger] set@[u] <==> (old(set)@[u] || list@.take(q as int).contains(u as usize))),
        decreases list@.len() - q,
    {
        let t = list[q];
        let ghost prev = set@;
        set.set(t, true);
        proof {
            assert(list@.take(q + 1)[q as int] == t);
            assert forall|u: int| 0 <= u < old(set)@.len() implies (#[trigger] set@[u] <==> (old(set)@[u] || list@.take(q + 1).contains(u as usize))) by {
                assert(set@[u] == (prev[u] || u == t));
                if list@.take(q + 1).contains(u as usize) && u != t {
                    let w = choose|w: int| 0 <= w < q + 1 && #[trigger] list@.take(q + 1)[w] == u as usize;
                    assert(u as usize as int == u);
                    assert(w != q);
                    assert(list@.take(q as int)[w] == u as usize);
                }
                if list@.take(q as int).contains(u as usize) {
                    let w = choose|w: int| 0 <= w < q && #[trigger] list@.take(q as int)[w] == u as usize;
                    assert(list@.take(q + 1)[w] == u as usize);
                }
            }
        }
        q = q + 1;
    }
    assert(list@.take(q as int) =~= list@);
}

impl Automaton {
    /// The set of states before any character is read: the epsilon closure of state 0.
    pub fn start_set(&self) -> (r: Vec<bool>)
        requires
            aut_wf(self@),
        ensures
            r@.len() == self@.len(),
            forall|u: int| 0 <= u < self@.len() ==> (#[trigger] r@[u] <==> reachable(aut_eps(self@), 0, u)),
    {
        let ghost a = self@;
        let mut r = falses(self.states.len());
        assert(self.states@[0]@ == a[0]);
        proof {
            assert forall|i: int| 0 <= i < self.states@[0].closure@.len() implies #[trigger] self.states@[0].closure@[i] < r@.len() by {
                assert(a[0].closure[i] < a.len());
            }
        }
        mark_all(&mut r, &self.states[0].closure);
        r
    }

    /// The set of states after reading `c` from the states of `cur`.
    pub fn step(&self, reg: &CharacterClassRegistry, cur: &Vec<bool>, c: char) -> (r: Vec<bool>)
        requires
            aut_wf(self@),
            cur@.len() == self@.len(),
        ensures
            r@.len() == self@.len(),
            forall|u: int| 0 <= u < self@.len() ==> (#[trigger] r@[u] <==> step_has(self@, reg.class_matchers(), cur@, c, u)),
    {
        let ghost a = self@;
        let ghost cls = reg.class_matchers();
        let n = self.states.len();
        let mut next = falses(n);
        let mut s: usize = 0;
        while s < n
            invariant
                a == self@,
                cls == reg.class_matchers(),
                aut_wf(a),
                n == a.len(),
                cur@.len() == n,
                s <= n,
                next@.len() == n,
                forall|u: int| 0 <= u < n ==> (#[trigger] next@[u] <==> exists|s2: int, j: int|
                    #![trigger cur@[s2], a[s2].trans[j]]
                    0 <= s2 < s && cur@[s2] && 0 <= j < a[s2].trans.len() && class_has(cls, a[s2].trans[j].0, c)
                        && reachable(aut_eps(a), a[s2].trans[j].1 as int, u)),
            decreases n - s,
        {
            if cur[s] {
                let st = &self.states[s];
                assert(st@ == a[s as int]);
                let mut j: usize = 0;
                while j < st.transitions.len()
                    invariant
                        a == self@,
                        cls == reg.class_matchers(),
                        aut_wf(a),
                        n == a.len(),
                        cur@.len() == n,
                        s < n,
                        cur@[s as int],
                        st@ == a[s as int],
                        j <= a[s as int].trans.len(),
                        next@.len() == n,
                        forall|u: int| 0 <= u < n ==> (#[trigger] next@[u] <==> (exists|s2: int, j2: int|
                            #![trigger cur@[s2], a[s2].trans[j2]]
                            0 <= s2 < s && cur@[s2] && 0 <= j2 < a[s2].trans.len() && class_has(cls, a[s2].trans[j2].0, c)
                                && reachable(aut_eps(a), a[s2].trans[j2].1 as int, u))
                            || (exists|j2: int|
                            0 <= j2 < j && class_has(cls, #[trigger] a[s as int].trans[j2].0, c)
                                && reachable(aut_eps(a), a[s as int].trans[j2].1 as int, u))),
                    decreases a[s as int].trans.len() - j,
                {
                    let (cc, t) = st.transitions[j];
                    assert(a[s as int].trans[j as int] == (cc, t));
                    if reg.matches(cc, c) {
                        let cl = &self.states[t].closure;
                        assert(self.states@[t as int]@ == a[t as int]);
                        proof {
                            assert forall|i: int| 0 <= i < cl@.len() implies #[trigger] cl@[i] < next@.len() by {
                                assert(a[t as int].closure[i] < a.len());
                            }
                        }
                        let ghost before = next@;
                        mark_all(&mut next, cl);
                        proof {
                            assert(path_in(aut_eps(a), t as int, t as int, 0));
                            assert(reachable(aut_eps(a), t as int, t as int));
                            assert(next@[t as int]);
                            assert forall|u: int| 0 <= u < n implies (#[trigger] next@[u] <==> (exists|s2: int, j2: int|
                                #![trigger cur@[s2], a[s2].trans[j2]]
                                0 <= s2 < s && cur@[s2] && 0 <= j2 < a[s2].trans.len() && class_has(cls, a[s2].trans[j2].0, c)
                                    && reachable(aut_eps(a), a[s2].trans[j2].1 as int, u))
                                || (exists|j2: int|
                                0 <= j2 < j + 1 && class_has(cls, #[trigger] a[s as int].trans[j2].0, c)
                                    && reachable(aut_eps(a), a[s as int].trans[j2].1 as int, u))) by {
                                if before[u] && !(exists|s2: int, j2: int|
                                    #![trigger cur@[s2], a[s2].trans[j2]]
                                    0 <= s2 < s && cur@[s2] && 0 <= j2 < a[s2].trans.len() && class_has(cls, a[s2].trans[j2].0, c)
                                        && reachable(aut_eps(a), a[s2].trans[j2].1 as int, u)) {
                                    let j3 = choose|j2: int|
                                        0 <= j2 < j && class_has(cls, #[trigger] a[s as int].trans[j2].0, c)
                                            && reachable(aut_eps(a), a[s as int].trans[j2].1 as int, u);
                                    assert(0 <= j3 < j + 1);
                                }
                                if (exists|j2: int|
                                    0 <= j2 < j + 1 && class_has(cls, #[trigger] a[s as int].trans[j2].0, c)
                                        && reachable(aut_eps(a), a[s as int].trans[j2].1 as int, u)) {
                                    let j3 = choose|j2: int|
                                        0 <= j2 < j + 1 && class_has(cls, #[trigger] a[s as int].trans[j2].0, c)
                                            && reachable(aut_eps(a), a[s as int].trans[j2].1 as int, u);
                                    if j3 == j {
                                        assert(a[t as int].closure.contains(u as usize));
                                    } else {
                                        assert(before[u]);
                                    }
                                }
                            }
                        }
                    } else {
                        proof {
                            assert forall|u: int| 0 <= u < n implies (#[trigger] next@[u] <==> (exists|s2: int, j2: int|
                                #![trigger cur@[s2], a[s2].trans[j2]]
                                0 <= s2 < s && cur@[s2] && 0 <= j2 < a[s2].trans.len() && class_has(cls, a[s2].trans[j2].0, c)
                                    && reachable(aut_eps(a), a[s2].trans[j2].1 as int, u))
                                || (exists|j2: int|
                                0 <= j2 < j + 1 && class_has(cls, #[trigger] a[s as int].trans[j2].0, c)
                                    && reachable(aut_eps(a), a[s as int].trans[j2].1 as int, u))) by {
                                if (exists|j2: int|
                                    0 <= j2 < j + 1 && class_has(cls, #[trigger] a[s as int].trans[j2].0, c)
                                        && reachable(aut_eps(a), a[s as int].trans[j2].1 as int, u)) {
                                    let j3 = choose|j2: int|
                                        0 <= j2 < j + 1 && class_has(cls, #[trigger] a[s as int].trans[j2].0, c)
                                            && reachable(aut_eps(a), a[s as int].trans[j2].1 as int, u);
                                    assert(j3 != j);
                                }
                            }
                        }
                    }
                    j = j + 1;
                }
                proof {
                    assert forall|u: int| 0 <= u < n implies (#[trigger] next@[u] <==> exists|s2: int, j2: int|
                        #![trigger cur@[s2], a[s2].trans[j2]]
                        0 <= s2 < s + 1 && cur@[s2] && 0 <= j2 < a[s2].trans.len() && class_has(cls, a[s2].trans[j2].0, c)
                            && reachable(aut_eps(a), a[s2].trans[j2].1 as int, u)) by {
                        if next@[u] && !(exists|s2: int, j2: int|
                            #![trigger cur@[s2], a[s2].trans[j2]]
                            0 <= s2 < s && cur@[s2] && 0 <= j2 < a[s2].trans.len() && class_has(cls, a[s2].trans[j2].0, c)
                                && reachable(aut_eps(a), a[s2].trans[j2].1 as int, u)) {
                            let j3 = choose|j2: int|
                                0 <= j2 < j && class_has(cls, #[trigger] a[s as int].trans[j2].0, c)
                                    && reachable(aut_eps(a), a[s as int].trans[j2].1 as int, u);
                            assert(cur@[s as int] && a[s as int].trans[j3] == a[s as int].trans[j3]);
                        }
                        if (exists|s2: int, j2: int|
                            #![trigger cur@[s2], a[s2].trans[j2]]
                            0 <= s2 < s + 1 && cur@[s2] && 0 <= j2 < a[s2].trans.len() && class_has(cls, a[s2].trans[j2].0, c)
                                && reachable(aut_eps(a), a[s2].trans[j2].1 as int, u)) {
                            let (s3, j3) = choose|s2: int, j2: int|
                                #![trigger cur@[s2], a[s2].trans[j2]]
                                0 <= s2 < s + 1 && cur@[s2] && 0 <= j2 < a[s2].trans.len() && class_has(cls, a[s2].trans[j2].0, c)
                                    && reachable(aut_eps(a), a[s2].trans[j2].1 as int, u);
                            if s3 == s {
                                assert(class_has(cls, a[s as int].trans[j3].0, c));
                            }
                        }
                    }
                }
            } else {
                proof {
                    assert forall|u: int| 0 <= u < n implies (#[trigger] next@[u] <==> exists|s2: int, j2: int|
                        #![trigger cur@[s2], a[s2].trans[j2]]
                        0 <= s2 < s + 1 && cur@[s2] && 0 <= j2 < a[s2].trans.len() && class_has(cls, a[s2].trans[j2].0, c)
                            && reachable(aut_eps(a), a[s2].trans[j2].1 as int, u)) by {
                        if (exists|s2: int, j2: int|
                            #![trigger cur@[s2], a[s2].trans[j2]]
                            0 <= s2 < s + 1 && cur@[s2] && 0 <= j2 < a[s2].trans.len() && class_has(cls, a[s2].trans[j2].0, c)
                                && reachable(aut_eps(a), a[s2].trans[j2].1 as int, u)) {
                            let (s3, j3) = choose|s2: int, j2: int|
                                #![trigger cur@[s2], a[s2].trans[j2]]
                                0 <= s2 < s + 1 && cur@[s2] && 0 <= j2 < a[s2].trans.len() && class_has(cls, a[s2].trans[j2].0, c)
                                    && reachable(aut_eps(a), a[s2].trans[j2].1 as int, u);
                            assert(s3 != s);
                        }
                    }
                }
            }
            s = s + 1;
        }
        next
    }

    /// Whether the set has a state.
    pub fn any_state(set: &Vec<bool>) -> (r: bool)
        ensures
            r == exists|u: int| 0 <= u < set@.len() && #[trigger] set@[u],
    {
        let mut u: usize = 0;
        while u < set.len()
            invariant
                u <= set@.len(),
                forall|v: int| 0 <= v < u ==> !#[trigger] set@[v],
            decreases set@.len() - u,
        {
            if set[u] {
                return true;
            }
            u = u + 1;
        }
        false
    }

    /// Whether a state of the set accepts a pattern.
    pub fn accepting_in(&self, set: &Vec<bool>) -> (r: bool)
        requires
            set@.len() == self@.len(),
        ensures
            r == exists|u: int| 0 <= u < self@.len() && #[trigger] set@[u] && self@[u].accept is Some,
    {
        let mut u: usize = 0;
        while u < set.len()
            invariant
                u <= set@.len(),
                set@.len() == self@.len(),
                forall|v: int| 0 <= v < u ==> !(#[trigger] set@[v] && self@[v].accept is Some),
            decreases set@.len() - u,
        {
            assert(self.states@[u as int]@ == self@[u as int]);
            if set[u] && self.states[u].accept.is_some() {
                return true;
            }
            u = u + 1;
        }
        false
    }

    /// Whether the automaton matches a non-empty prefix of the input from `pos` on.
    pub fn match_nonempty(&self, reg: &CharacterClassRegistry, input: &Vec<char>, pos: usize) -> (r: bool)
        requires
            aut_wf(self@),
            pos <= input@.len(),
        ensures
            r == matches_nonempty(self@, reg.class_matchers(), input@, pos as int),
    {
        let ghost a = self@;
        let ghost cls = reg.class_matchers();
        let mut cur = self.start_set();
        proof {
            assert forall|u: int| 0 <= u < a.len() implies (#[trigger] cur@[u] <==> in_run(a, cls, input@, pos as int, 0, u)) by {
                assert(run_set(a, cls, input@, pos as int, 0).contains(u) == reachable(aut_eps(a), 0, u));
            }
        }
        let mut k: usize = 0;
        while k < input.len() - pos
            invariant
                a == self@,
                cls == reg.class_matchers(),
                aut_wf(a),
                pos + k <= input@.len(),
                is_run_set(a, cls, input@, pos as int, k as nat, cur@),
                forall|k2: nat| 1 <= k2 <= k ==> !#[trigger] accepts_after(a, cls, input@, pos as int, k2),
            decreases input@.len() - pos - k,
        {
            let next = self.step(reg, &cur, input[pos + k]);
            proof {
                lemma_run_step(a, cls, input@, pos as int, k as nat, cur@, next@);
            }
            k = k + 1;
            cur = next;
            let any = Self::any_state(&cur);
            if self.accepting_in(&cur) {
                proof {
                    let u = choose|u: int| 0 <= u < a.len() && #[trigger] cur@[u] && a[u].accept is Some;
                    assert(in_run(a, cls, input@, pos as int, k as nat, u));
                    assert(accepts_after(a, cls, input@, pos as int, k as nat));
                }
                return true;
            }
            proof {
                assert forall|u: int| !#[trigger] in_run(a, cls, input@, pos as int, k as nat, u) || a[u].accept is None by {
                    if in_run(a, cls, input@, pos as int, k as nat, u) {
                        lemma_run_in_range(a, cls, input@, pos as int, k as nat, u);
                        assert(cur@[u]);
                    }
                }
            }
            if !any {
                proof {
                    assert forall|v: int| !#[trigger] in_run(a, cls, input@, pos as int, k as nat, v) by {
                        if in_run(a, cls, input@, pos as int, k as nat, v) {
                            lemma_run_in_range(a, cls, input@, pos as int, k as nat, v);
                            assert(cur@[v]);
                        }
                    }
                    assert forall|k2: nat| 1 <= k2 && pos + k2 <= input@.len() implies !#[trigger] accepts_after(a, cls, input@, pos as int, k2) by {
                        if k2 > k {
                            assert forall|u: int| !#[trigger] in_run(a, cls, input@, pos as int, k2, u) by {
                                lemma_run_dead(a, cls, input@, pos as int, k as nat, k2, u);
                            }
                        }
                    }
                }
                return false;
            }
        }
        false
    }
}

/// The state of the automaton copies the transitions of the NFA state and accepts the pattern
/// `k` exactly if it is the end state of its NFA.
pub open spec fn state_of_nfa(s: AutomatonStateView, v: NfaStateView, k: int, end: usize) -> bool {
    &&& s.eps == v.eps
    &&& s.trans == v.trans
    &&& s.accept == (if v.id == end { Some(k as usize) } else { None })
}

/// The automaton holds the states of the multi-pattern NFA: state 0 with epsilon transitions to
/// the start states of the NFAs, then the states of each NFA at their numbers, accepting the
/// number of its pattern in its end state.
pub open spec fn automaton_of(a: Seq<AutomatonStateView>, mp: MultiPatternNfa) -> bool {
    let ns = nfas_view(mp.nfas@);
    &&& a.len() == mp.state_count()
    &&& a[0].eps == mp.start_transitions@.map_values(|e: EpsilonTransition| e.target_state)
    &&& a[0].trans.len() == 0
    &&& a[0].accept is None
    &&& forall|k: int, i: int|
        0 <= k < ns.len() && 0 <= i < ns[k].states.len() ==> state_of_nfa(
            a[nfa_offset(ns, k) + i],
            #[trigger] ns[k].states[i],
            k,
            ns[k].end,
        )
}

/// A copy of a list of numbers.
fn copy_usizes(v: &Vec<usize>) -> (r: Vec<usize>)
    ensures
        r@ == v@,
{
    let mut r: Vec<usize> = Vec::new();
    let mut i: usize = 0;
    while i < v.len()
        invariant
            i <= v@.len(),
            r@ == v@.take(i as int),
        decreases v@.len() - i,
    {
        r.push(v[i]);
        i = i + 1;
        assert(r@ =~= v@.take(i as int));
    }
    assert(v@.take(i as int) =~= v@);
    r
}

/// A copy of a list of pairs of numbers.
fn copy_pairs(v: &Vec<(usize, usize)>) -> (r: Vec<(usize, usize)>)
    ensures
        r@ == v@,
{
    let mut r: Vec<(usize, usize)> = Vec::new();
    let mut i: usize = 0;
    while i < v.len()
        invariant
            i <= v@.len(),
            r@ == v@.take(i as int),
        decreases v@.len() - i,
    {
        r.push(v[i]);
        i = i + 1;
        assert(r@ =~= v@.take(i as int));
    }
    assert(v@.take(i as int) =~= v@);
    r
}

/// The targets of the epsilon transitions and the class and target of the character
/// transitions of an NFA state.
fn state_lists(st: &NfaState) -> (r: (Vec<usize>, Vec<(usize, usize)>))
    ensures
        r.0@ == st@.eps,
        r.1@ == st@.trans,
{
    let mut eps: Vec<usize> = Vec::new();
    let mut i: usize = 0;
    while i < st.epsilon_transitions.len()
        invariant
            i <= st@.eps.len(),
            eps@ == st@.eps.take(i as int),
        decreases st@.eps.len() - i,
    {
        eps.push(st.epsilon_transitions[i].target_state);
        i = i + 1;
        assert(eps@ =~= st@.eps.take(i as int));
    }
    let mut trans: Vec<(usize, usize)> = Vec::new();
    let mut j: usize = 0;
    while j < st.transitions.len()
        invariant
            j <= st@.trans.len(),
            trans@ == st@.trans.take(j as int),
        decreases st@.trans.len() - j,
    {
        let t = st.transitions[j];
        trans.push((t.char_class, t.target_state));
        j = j + 1;
        assert(trans@ =~= st@.trans.take(j as int));
    }
    assert(eps@ =~= st@.eps);
    assert(trans@ =~= st@.trans);
    (eps, trans)
}

/// The bounds a well-formed multi-pattern NFA gives its NFAs.
pub proof fn lemma_mp_bounds(mp: MultiPatternNfa, m: nat)
    requires
        mp.wf(m),
    ensures
        forall|k: int| 0 <= k < mp.nfas@.len() ==> {
            &&& nfa_at(#[trigger] nfas_view(mp.nfas@)[k], nfa_offset(nfas_view(mp.nfas@), k))
            &&& nfa_offset(nfas_view(mp.nfas@), k) + nfas_view(mp.nfas@)[k].states.len() <= mp.state_count()
            &&& nfa_offset(nfas_view(mp.nfas@), k + 1) == nfa_offset(nfas_view(mp.nfas@), k) + nfas_view(mp.nfas@)[k].states.len()
            &&& mp.start_transitions@[k].target_state < mp.state_count()
        },
        1 <= mp.state_count() <= usize::MAX,
{
    let ns = nfas_view(mp.nfas@);
    lemma_nfa_offset_mono(ns, 0, ns.len() as int);
    assert forall|k: int| 0 <= k < mp.nfas@.len() implies {
        &&& nfa_at(#[trigger] ns[k], nfa_offset(ns, k))
        &&& nfa_offset(ns, k) + ns[k].states.len() <= mp.state_count()
        &&& nfa_offset(ns, k + 1) == nfa_offset(ns, k) + ns[k].states.len()
        &&& mp.start_transitions@[k].target_state < mp.state_count()
    } by {
        lemma_nfa_offset_mono(ns, k + 1, ns.len() as int);
    }
}

/// The lists of character transitions as sequences.
pub open spec fn pairs_view(v: Seq<Vec<(usize, usize)>>) -> Seq<Seq<(usize, usize)>> {
    v.map_values(|x: Vec<(usize, usize)>| x@)
}

/// The lists hold the transitions and accepted patterns of the start state and of the states
/// of the first `k` NFAs, at their numbers; all transitions lead below `total`.
#[verifier::opaque]
pub open spec fn lists_hold(
    ns: Seq<crate::nfa::NfaView>,
    k: int,
    ev: Seq<Seq<usize>>,
    tv: Seq<Seq<(usize, usize)>>,
    av: Seq<Option<usize>>,
    total: int,
) -> bool {
    &&& ev.len() == nfa_offset(ns, k)
    &&& tv.len() == ev.len()
    &&& av.len() == ev.len()
    &&& forall|g: int, j: int| 0 <= g < ev.len() && 0 <= j < ev[g].len() ==> #[trigger] ev[g][j] < total
    &&& forall|g: int, j: int| 0 <= g < tv.len() && 0 <= j < tv[g].len() ==> #[trigger] tv[g][j].1 < total
    &&& forall|g: int| 0 <= g < av.len() ==> (#[trigger] av[g] matches Some(p) ==> p < k)
    &&& forall|k2: int, i: int| 0 <= k2 < k && 0 <= i < ns[k2].states.len() ==> {
        &&& ev[nfa_offset(ns, k2) + i] == (#[trigger] ns[k2].states[i]).eps
        &&& tv[nfa_offset(ns, k2) + i] == ns[k2].states[i].trans
        &&& av[nfa_offset(ns, k2) + i] == (if ns[k2].states[i].id == ns[k2].end { Some(k2 as usize) } else { None })
    }
}

/// Appending the states of the `k`-th NFA extends the lists from `k` NFAs to `k + 1`.
pub proof fn lemma_lists_push(
    ns: Seq<crate::nfa::NfaView>,
    k: int,
    ev0: Seq<Seq<usize>>,
    tv0: Seq<Seq<(usize, usize)>>,
    av0: Seq<Option<usize>>,
    ev1: Seq<Seq<usize>>,
    tv1: Seq<Seq<(usize, usize)>>,
    av1: Seq<Option<usize>>,
    total: int,
)
    requires
        0 <= k < ns.len(),
        lists_hold(ns, k, ev0, tv0, av0, total),
        nfa_offset(ns, k + 1) == nfa_offset(ns, k) + ns[k].states.len(),
        0 <= nfa_offset(ns, k),
        ev1.len() == nfa_offset(ns, k + 1),
        tv1.len() == ev1.len(),
        av1.len() == ev1.len(),
        ev1.take(nfa_offset(ns, k)) == ev0,
        tv1.take(nfa_offset(ns, k)) == tv0,
        av1.take(nfa_offset(ns, k)) == av0,
        forall|i: int| 0 <= i < ns[k].states.len() ==> {
            &&& ev1[nfa_offset(ns, k) + i] == (#[trigger] ns[k].states[i]).eps
            &&& tv1[nfa_offset(ns, k) + i] == ns[k].states[i].trans
            &&& av1[nfa_offset(ns, k) + i] == (if ns[k].states[i].id == ns[k].end { Some(k as usize) } else { None })
            &&& forall|j: int| 0 <= j < ns[k].states[i].eps.len() ==> #[trigger] ns[k].states[i].eps[j] < total
            &&& forall|j: int| 0 <= j < ns[k].states[i].trans.len() ==> #[trigger] ns[k].states[i].trans[j].1 < total
        },
    ensures
        lists_hold(ns, k + 1, ev1, tv1, av1, total),
{
    reveal(lists_hold);
    let off = nfa_offset(ns, k);
    assert forall|g: int| 0 <= g < off implies #[trigger] ev1[g] == ev0[g] && tv1[g] == tv0[g] && av1[g] == av0[g] by {
        assert(ev1.take(off)[g] == ev1[g]);
        assert(tv1.take(off)[g] == tv1[g]);
        assert(av1.take(off)[g] == av1[g]);
    }
    assert forall|g: int, j: int| 0 <= g < ev1.len() && 0 <= j < ev1[g].len() implies #[trigger] ev1[g][j] < total by {
        if g >= off {
            let i = g - off;
            assert(ev1[off + i] == ns[k].states[i].eps);
            assert(ns[k].states[i].eps[j] < total);
        } else {
            assert(ev1[g] == ev0[g]);
        }
    }
    assert forall|g: int, j: int| 0 <= g < tv1.len() && 0 <= j < tv1[g].len() implies #[trigger] tv1[g][j].1 < total by {
        if g >= off {
            let i = g - off;
            assert(tv1[off + i] == ns[k].states[i].trans);
            assert(ns[k].states[i].trans[j].1 < total);
        } else {
            assert(tv1[g] == tv0[g]);
        }
    }
    assert forall|g: int| 0 <= g < av1.len() implies (#[trigger] av1[g] matches Some(p) ==> p < k + 1) by {
        if g >= off {
            let i = g - off;
            assert(av1[off + i] == (if ns[k].states[i].id == ns[k].end { Some(k as usize) } else { None }));
        } else {
            assert(av1[g] == av0[g]);
        }
    }
    assert forall|k2: int, i: int| 0 <= k2 < k + 1 && 0 <= i < ns[k2].states.len() implies {
        &&& ev1[nfa_offset(ns, k2) + i] == (#[trigger] ns[k2].states[i]).eps
        &&& tv1[nfa_offset(ns, k2) + i] == ns[k2].states[i].trans
        &&& av1[nfa_offset(ns, k2) + i] == (if ns[k2].states[i].id == ns[k2].end { Some(k2 as usize) } else { None })
    } by {
        if k2 < k {
            lemma_nfa_offset_mono(ns, k2 + 1, k);
            lemma_nfa_offset_mono(ns, 0, k2);
            assert(ev1[nfa_offset(ns, k2) + i] == ev0[nfa_offset(ns, k2) + i]);
        }
    }
}

/// An automaton with the states of the lists for all NFAs of a multi-pattern NFA holds its
/// states.
pub proof fn lemma_automaton_of(
    a: Seq<AutomatonStateView>,
    mp: MultiPatternNfa,
    ev: Seq<Seq<usize>>,
    tv: Seq<Seq<(usize, usize)>>,
    av: Seq<Option<usize>>,
)
    requires
        lists_hold(nfas_view(mp.nfas@), mp.nfas@.len() as int, ev, tv, av, mp.state_count()),
        a.len() == mp.state_count(),
        nfa_offset(nfas_view(mp.nfas@), 0) == 1,
        forall|g: int| 0 <= g < mp.state_count() ==> {
            &&& (#[trigger] a[g]).eps == ev[g]
            &&& a[g].trans == tv[g]
            &&& a[g].accept == av[g]
        },
        ev[0] == mp.start_transitions@.map_values(|e: EpsilonTransition| e.target_state),
        tv[0].len() == 0,
        av[0] is None,
    ensures
        automaton_of(a, mp),
        forall|u: int| 0 <= u < a.len() ==> (#[trigger] a[u].accept matches Some(p) ==> p < mp.nfas@.len()),
{
    reveal(lists_hold);
    let ns = nfas_view(mp.nfas@);
    lemma_nfa_offset_mono(ns, 0, ns.len() as int);
    assert(a[0].eps == ev[0]);
    assert forall|k2: int, i: int| 0 <= k2 < ns.len() && 0 <= i < ns[k2].states.len() implies state_of_nfa(
        a[nfa_offset(ns, k2) + i],
        #[trigger] ns[k2].states[i],
        k2,
        ns[k2].end,
    ) by {
        lemma_nfa_offset_mono(ns, 0, k2);
        lemma_nfa_offset_mono(ns, k2 + 1, ns.len() as int);
        assert(nfa_offset(ns, k2 + 1) == nfa_offset(ns, k2) + ns[k2].states.len());
        assert(a[nfa_offset(ns, k2) + i].eps == ev[nfa_offset(ns, k2) + i]);
    }
    assert forall|u: int| 0 <= u < a.len() implies (#[trigger] a[u].accept matches Some(p) ==> p < mp.nfas@.len()) by {
        assert(a[u].accept == av[u]);
    }
}

/// Appends the transitions and accepted pattern of the states of the `k`-th NFA, whose states
/// are numbered from `off` on, to the lists.
fn push_nfa_states(
    nfa: &crate::nfa::Nfa,
    k: usize,
    Ghost(off): Ghost<int>,
    Ghost(total): Ghost<int>,
    eps_list: &mut Vec<Vec<usize>>,
    trans_list: &mut Vec<Vec<(usize, usize)>>,
    acc_list: &mut Vec<Option<usize>>,
)
    requires
        0 <= off,
        nfa_at(nfa@, off),
        off + nfa@.states.len() <= total,
        old(eps_list)@.len() == off,
        old(trans_list)@.len() == off,
        old(acc_list)@.len() == off,
    ensures
        final(eps_list)@.len() == off + nfa@.states.len(),
        final(trans_list)@.len() == final(eps_list)@.len(),
        final(acc_list)@.len() == final(eps_list)@.len(),
        final(eps_list)@.take(off) == old(eps_list)@,
        final(trans_list)@.take(off) == old(trans_list)@,
        final(acc_list)@.take(off) == old(acc_list)@,
        forall|i: int| 0 <= i < nfa@.states.len() ==> {
            &&& final(eps_list)@[off + i]@ == (#[trigger] nfa@.states[i]).eps
            &&& final(trans_list)@[off + i]@ == nfa@.states[i].trans
            &&& final(acc_list)@[off + i] == (if nfa@.states[i].id == nfa@.end { Some(k) } else { None })
            &&& forall|j: int| 0 <= j < nfa@.states[i].eps.len() ==> #[trigger] nfa@.states[i].eps[j] < total
            &&& forall|j: int| 0 <= j < nfa@.states[i].trans.len() ==> #[trigger] nfa@.states[i].trans[j].1 < total
        },
{
    let mut i: usize = 0;
    while i < nfa.states.len()
        invariant
            0 <= off,
            nfa_at(nfa@, off),
            off + nfa@.states.len() <= total,
            i <= nfa@.states.len(),
            eps_list@.len() == off + i,
            trans_list@.len() == off + i,
            acc_list@.len() == off + i,
            eps_list@.take(off) == old(eps_list)@,
            trans_list@.take(off) == old(trans_list)@,
            acc_list@.take(off) == old(acc_list)@,
            forall|i2: int| 0 <= i2 < i ==> {
                &&& eps_list@[off + i2]@ == (#[trigger] nfa@.states[i2]).eps
                &&& trans_list@[off + i2]@ == nfa@.states[i2].trans
                &&& acc_list@[off + i2] == (if nfa@.states[i2].id == nfa@.end { Some(k) } else { None })
            },
        decreases nfa@.states.len() - i,
    {
        let st = &nfa.states[i];
        assert(st@ == nfa@.states[i as int]);
        let (eps, trans) = state_lists(st);
        let accept = if st.state == nfa.end_state { Some(k) } else { None };
        let ghost e0 = eps_list@;
        let ghost t0 = trans_list@;
        let ghost a0 = acc_list@;
        let ghost ev = eps;
        let ghost tv = trans;
        eps_list.push(eps);
        trans_list.push(trans);
        acc_list.push(accept);
        assert(eps_list@ == e0.push(ev));
        assert(trans_list@ == t0.push(tv));
        assert(e0.push(ev).take(off) =~= e0.take(off));
        assert(t0.push(tv).take(off) =~= t0.take(off));
        assert(a0.push(accept).take(off) =~= a0.take(off));
        i = i + 1;
    }
    assert forall|i2: int| 0 <= i2 < nfa@.states.len() implies {
        &&& forall|j: int| 0 <= j < (#[trigger] nfa@.states[i2]).eps.len() ==> #[trigger] nfa@.states[i2].eps[j] < total
        &&& forall|j: int| 0 <= j < nfa@.states[i2].trans.len() ==> #[trigger] nfa@.states[i2].trans[j].1 < total
    } by {
        assert forall|j: int| 0 <= j < nfa@.states[i2].eps.len() implies #[trigger] nfa@.states[i2].eps[j] < total by {
            assert(nfa@.states[i2].eps[j] < off + nfa@.states.len());
        }
        assert forall|j: int| 0 <= j < nfa@.states[i2].trans.len() implies #[trigger] nfa@.states[i2].trans[j].1 < total by {
            assert(nfa@.states[i2].trans[j].1 < off + nfa@.states.len());
        }
    }
}

impl Automaton {
    /// Compiles a multi-pattern NFA: its states in one table, each with its epsilon closure.
    #[verifier::rlimit(100)]
    #[verifier::spinoff_prover]
    pub fn from_multi_pattern_nfa(mp: &MultiPatternNfa, Ghost(m): Ghost<nat>) -> (r: Automaton)
        requires
            mp.wf(m),
        ensures
            aut_wf(r@),
            automaton_of(r@, *mp),
            forall|u: int| 0 <= u < r@.len() ==> (#[trigger] r@[u].accept matches Some(p) ==> p < mp.nfas@.len()),
    {
        let ghost ns = nfas_view(mp.nfas@);
        let ghost total = mp.state_count();
        proof {
            lemma_mp_bounds(*mp, m);
        }
        let mut eps0: Vec<usize> = Vec::new();
        let mut k: usize = 0;
        while k < mp.start_transitions.len()
            invariant
                k <= mp.start_transitions@.len(),
                forall|j: int| 0 <= j < mp.start_transitions@.len() ==> #[trigger] mp.start_transitions@[j].target_state < total,
                eps0@ == mp.start_transitions@.take(k as int).map_values(|e: EpsilonTransition| e.target_state),
            decreases mp.start_transitions@.len() - k,
        {
            eps0.push(mp.start_transitions[k].target_state);
            k = k + 1;
            assert(eps0@ =~= mp.start_transitions@.take(k as int).map_values(|e: EpsilonTransition| e.target_state));
        }
        assert(mp.start_transitions@.take(k as int) =~= mp.start_transitions@);
        let mut eps_list: Vec<Vec<usize>> = Vec::new();
        let mut trans_list: Vec<Vec<(usize, usize)>> = Vec::new();
        let mut acc_list: Vec<Option<usize>> = Vec::new();
        eps_list.push(eps0);
        trans_list.push(Vec::new());
        acc_list.push(None);
        assert(mp.start_transitions@.len() == ns.len());
        let mut k: usize = 0;
        proof {
            reveal(lists_hold);
            assert(adj_view(eps_list@) =~= seq![eps_list@[0]@]);
            assert(pairs_view(trans_list@) =~= seq![trans_list@[0]@]);
        }
        while k < mp.nfas.len()
            invariant
                ns == nfas_view(mp.nfas@),
                total == mp.state_count(),
                k <= ns.len(),
                mp.start_transitions@.len() == ns.len(),
                forall|k2: int| 0 <= k2 < ns.len() ==> {
                    &&& nfa_at(#[trigger] ns[k2], nfa_offset(ns, k2))
                    &&& nfa_offset(ns, k2) + ns[k2].states.len() <= total
                    &&& nfa_offset(ns, k2 + 1) == nfa_offset(ns, k2) + ns[k2].states.len()
                    &&& mp.start_transitions@[k2].target_state < total
                },
                nfa_offset(ns, 0) == 1,
                eps_list@.len() == nfa_offset(ns, k as int),
                trans_list@.len() == eps_list@.len(),
                acc_list@.len() == eps_list@.len(),
                lists_hold(ns, k as int, adj_view(eps_list@), pairs_view(trans_list@), acc_list@, total),
                eps_list@[0]@ == mp.start_transitions@.map_values(|e: EpsilonTransition| e.target_state),
                trans_list@[0]@.len() == 0,
                acc_list@[0] is None,
            decreases ns.len() - k,
        {
            let nfa = &mp.nfas[k];
            assert(nfa@ == ns[k as int]);
            let ghost off = nfa_offset(ns, k as int);
            proof {
                lemma_nfa_offset_mono(ns, 0, k as int);
            }
            let ghost e0 = eps_list@;
            let ghost t0 = trans_list@;
            let ghost a0 = acc_list@;
            push_nfa_states(nfa, k, Ghost(off), Ghost(total), &mut eps_list, &mut trans_list, &mut acc_list);
            proof {
                assert(adj_view(eps_list@).take(off) =~= adj_view(e0));
                assert(pairs_view(trans_list@).take(off) =~= pairs_view(t0));
                lemma_lists_push(ns, k as int, adj_view(e0), pairs_view(t0), a0, adj_view(eps_list@), pairs_view(trans_list@), acc_list@, total);
                assert(eps_list@[0] == eps_list@.take(off)[0]);
                assert(trans_list@[0] == trans_list@.take(off)[0]);
                assert(acc_list@[0] == acc_list@.take(off)[0]);
            }
            k = k + 1;
        }
        proof {
            reveal(lists_hold);
            assert forall|g: int, j: int| 0 <= g < eps_list@.len() && 0 <= j < eps_list@[g]@.len() implies #[trigger] eps_list@[g]@[j] < total by {
                assert(adj_view(eps_list@)[g] == eps_list@[g]@);
            }
            assert forall|g: int, j: int| 0 <= g < trans_list@.len() && 0 <= j < trans_list@[g]@.len() implies #[trigger] trans_list@[g]@[j].1 < total by {
                assert(pairs_view(trans_list@)[g] == trans_list@[g]@);
            }
        }
        let r = Self::with_closures(&eps_list, &trans_list, &acc_list, Ghost(total));
        proof {
            assert forall|g: int| 0 <= g < total implies {
                &&& (#[trigger] r@[g]).eps == adj_view(eps_list@)[g]
                &&& r@[g].trans == pairs_view(trans_list@)[g]
                &&& r@[g].accept == acc_list@[g]
            } by {}
            lemma_automaton_of(r@, *mp, adj_view(eps_list@), pairs_view(trans_list@), acc_list@);
        }
        r
    }
}

impl Automaton {
    /// Builds the automaton from the transitions and accepted patterns of its states,
    /// computing the epsilon closure of every state.
    fn with_closures(
        eps_list: &Vec<Vec<usize>>,
        trans_list: &Vec<Vec<(usize, usize)>>,
        acc_list: &Vec<Option<usize>>,
        Ghost(n): Ghost<int>,
    ) -> (r: Automaton)
        requires
            eps_list@.len() == n,
            n >= 1,
            trans_list@.len() == n,
            acc_list@.len() == n,
            forall|g: int, j: int| 0 <= g < n && 0 <= j < eps_list@[g]@.len() ==> #[trigger] eps_list@[g]@[j] < n,
            forall|g: int, j: int| 0 <= g < n && 0 <= j < trans_list@[g]@.len() ==> #[trigger] trans_list@[g]@[j].1 < n,
        ensures
            r@.len() == n,
            aut_wf(r@),
            forall|g: int| 0 <= g < n ==> {
                &&& (#[trigger] r@[g]).eps == eps_list@[g]@
                &&& r@[g].trans == trans_list@[g]@
                &&& r@[g].accept == acc_list@[g]
            },
    {
        let ghost adj = adj_view(eps_list@);
        assert(adj_wf(adj)) by {
            assert forall|i: int, j: int| 0 <= i < adj.len() && 0 <= j < adj[i].len() implies #[trigger] adj[i][j] < adj.len() by {
                assert(adj[i] == eps_list@[i]@);
            }
        }
        let mut states: Vec<AutomatonState> = Vec::new();
        let mut g: usize = 0;
        while g < eps_list.len()
            invariant
                adj == adj_view(eps_list@),
                adj_wf(adj),
                eps_list@.len() == n,
                trans_list@.len() == n,
                acc_list@.len() == n,
                forall|g2: int, j: int| 0 <= g2 < n && 0 <= j < trans_list@[g2]@.len() ==> #[trigger] trans_list@[g2]@[j].1 < n,
                g <= n,
                states@.len() == g,
                forall|g2: int| 0 <= g2 < g ==> {
                    &&& (#[trigger] states@[g2])@.eps == eps_list@[g2]@
                    &&& states@[g2]@.trans == trans_list@[g2]@
                    &&& states@[g2]@.accept == acc_list@[g2]
                    &&& forall|j: int| 0 <= j < states@[g2]@.closure.len() ==> #[trigger] states@[g2]@.closure[j] < n
                    &&& forall|t: int|
                        #![trigger states@[g2]@.closure.contains(t as usize)]
                        #![trigger reachable(adj, g2, t)]
                        0 <= t < n ==> (states@[g2]@.closure.contains(t as usize) <==> reachable(adj, g2, t))
                },
            decreases n - g,
        {
            let closure = reachable_from(eps_list, g);
            let st = AutomatonState {
                epsilon_transitions: copy_usizes(&eps_list[g]),
                transitions: copy_pairs(&trans_list[g]),
                closure,
                accept: acc_list[g],
            };
            states.push(st);
            g = g + 1;
        }
        let r = Automaton { states };
        proof {
            assert(aut_eps(r@) =~= adj);
            let a = r@;
            assert forall|s: int| 0 <= s < n implies #[trigger] a[s] == states@[s]@ by {}
            assert forall|s: int, j: int| 0 <= s < a.len() && 0 <= j < a[s].eps.len() implies #[trigger] a[s].eps[j] < a.len() by {
                assert(a[s].eps == adj[s]);
            }
            assert forall|s: int, j: int| 0 <= s < a.len() && 0 <= j < a[s].trans.len() implies #[trigger] a[s].trans[j].1 < a.len() by {
                assert(a[s].trans == trans_list@[s]@);
            }
            assert forall|s: int, j: int| 0 <= s < a.len() && 0 <= j < a[s].closure.len() implies #[trigger] a[s].closure[j] < a.len() by {
                assert(a[s] == states@[s]@);
            }
            assert forall|s: int, t: int| 0 <= s < a.len() && 0 <= t < a.len() implies (#[trigger] a[s].closure.contains(t as usize) <==> reachable(aut_eps(a), s, t)) by {
                assert(a[s] == states@[s]@);
            }
        }
        r
    }
}

/// A lookahead compiled to an automaton.
#[derive(Debug, Clone)]
pub struct CompiledLookahead {
    /// The automaton of the lookahead pattern.
    pub automaton: Automaton,
    /// If the lookahead is positive.
    pub is_positive: bool,
}

/// The automaton is that of a multi-pattern NFA with the given number of patterns.
pub open spec fn automaton_of_patterns(a: Seq<AutomatonStateView>, count: nat) -> bool {
    exists|mp: MultiPatternNfa, m: nat|
        #![trigger automaton_of(a, mp), mp.wf(m)]
        automaton_of(a, mp) && mp.wf(m) && mp.nfas@.len() == count
}

/// The automaton is that of a multi-pattern NFA with `count` patterns, each built from a
/// regular expression tree under the registry of `keys` and `cls` (see [pattern_from_tree]).
pub open spec fn automaton_from_trees(a: Seq<AutomatonStateView>, count: nat, keys: Seq<KeyView>, cls: Seq<CharMatcher>) -> bool {
    exists|mp: MultiPatternNfa, m: nat|
        #![trigger automaton_of(a, mp), mp.wf(m)]
        automaton_of(a, mp) && mp.wf(m) && mp.nfas@.len() == count
            && forall|k: int| 0 <= k < count ==> #[trigger] pattern_from_tree(mp, k, keys, cls)
}

/// An automaton built from trees under a registry is so under every extension of it.
pub proof fn lemma_automaton_from_trees_extend(
    a: Seq<AutomatonStateView>,
    count: nat,
    keys: Seq<KeyView>,
    cls: Seq<CharMatcher>,
    keys_b: Seq<KeyView>,
    cls_b: Seq<CharMatcher>,
)
    requires
        automaton_from_trees(a, count, keys, cls),
        registry_extends(keys, cls, keys_b, cls_b),
    ensures
        automaton_from_trees(a, count, keys_b, cls_b),
{
    let (mp, m) = choose|mp: MultiPatternNfa, m: nat|
        #![trigger automaton_of(a, mp), mp.wf(m)]
        automaton_of(a, mp) && mp.wf(m) && mp.nfas@.len() == count
            && forall|k: int| 0 <= k < count ==> #[trigger] pattern_from_tree(mp, k, keys, cls);
    lemma_patterns_from_trees_extend(mp, count as int, keys, cls, keys_b, cls_b);
}

/// The automaton is that of a multi-pattern NFA with a single pattern.
pub open spec fn single_pattern_automaton(a: Seq<AutomatonStateView>) -> bool {
    automaton_of_patterns(a, 1)
}

/// A lookahead as its polarity and automaton.
pub type LookaheadView = Option<(bool, Seq<AutomatonStateView>)>;

/// The lookahead holds at position `end`: a positive lookahead must match a non-empty prefix
/// of the input from there on, a negative one must not; no lookahead always holds.
pub open spec fn lookahead_ok(la: LookaheadView, cls: Seq<CharMatcher>, input: Seq<char>, end: int) -> bool {
    match la {
        None => true,
        Some((positive, a)) => matches_nonempty(a, cls, input, end) == positive,
    }
}

/// Pattern `p` matches the `k` characters from `pos` on: its accepting state is reached after
/// them, and its lookahead holds behind them. Matches are never empty.
pub open spec fn match_valid(
    a: Seq<AutomatonStateView>,
    las: Seq<LookaheadView>,
    cls: Seq<CharMatcher>,
    input: Seq<char>,
    pos: int,
    k: nat,
    p: int,
) -> bool {
    &&& 1 <= k
    &&& pos + k <= input.len()
    &&& 0 <= p < las.len()
    &&& exists|u: int| 0 <= u < a.len() && #[trigger] in_run(a, cls, input, pos, k, u) && a[u].accept == Some(p as usize)
    &&& lookahead_ok(las[p], cls, input, pos + k)
}

/// `r` is the longest match from `pos` on, and among the longest ones that of the pattern with
/// the lowest number, as the pattern number and the number of characters; `None` where no
/// pattern matches.
pub open spec fn is_longest_match(
    a: Seq<AutomatonStateView>,
    las: Seq<LookaheadView>,
    cls: Seq<CharMatcher>,
    input: Seq<char>,
    pos: int,
    r: Option<(usize, usize)>,
) -> bool {
    match r {
        None => forall|k: nat, p: int| !#[trigger] match_valid(a, las, cls, input, pos, k, p),
        Some((p, k)) => {
            &&& match_valid(a, las, cls, input, pos, k as nat, p as int)
            &&& forall|k2: nat, p2: int| #[trigger] match_valid(a, las, cls, input, pos, k2, p2) ==> k2 < k || (k2 == k && p <= p2)
        },
    }
}

/// The longest match from `pos` on, as a function of the automaton and the input (see
/// [is_longest_match]).
pub open spec fn longest_at(
    a: Seq<AutomatonStateView>,
    las: Seq<LookaheadView>,
    cls: Seq<CharMatcher>,
    input: Seq<char>,
    pos: int,
) -> Option<(usize, usize)> {
    if exists|r: Option<(usize, usize)>| is_longest_match(a, las, cls, input, pos, r) {
        choose|r: Option<(usize, usize)>| is_longest_match(a, las, cls, input, pos, r)
    } else {
        None
    }
}

/// There is at most one longest match: its length is the greatest one of all matches, and its
/// pattern the lowest one among the matches of that length.
pub proof fn lemma_longest_unique(
    a: Seq<AutomatonStateView>,
    las: Seq<LookaheadView>,
    cls: Seq<CharMatcher>,
    input: Seq<char>,
    pos: int,
    r1: Option<(usize, usize)>,
    r2: Option<(usize, usize)>,
)
    requires
        is_longest_match(a, las, cls, input, pos, r1),
        is_longest_match(a, las, cls, input, pos, r2),
    ensures
        r1 == r2,
{
    match (r1, r2) {
        (Some((p1, k1)), Some((p2, k2))) => {
            assert(match_valid(a, las, cls, input, pos, k1 as nat, p1 as int));
            assert(match_valid(a, las, cls, input, pos, k2 as nat, p2 as int));
        },
        (Some((p1, k1)), None) => {
            assert(match_valid(a, las, cls, input, pos, k1 as nat, p1 as int));
        },
        (None, Some((p2, k2))) => {
            assert(match_valid(a, las, cls, input, pos, k2 as nat, p2 as int));
        },
        (None, None) => {},
    }
}

/// The longest match is the one the simulation characterizes.
pub proof fn lemma_longest_at(
    a: Seq<AutomatonStateView>,
    las: Seq<LookaheadView>,
    cls: Seq<CharMatcher>,
    input: Seq<char>,
    pos: int,
    r: Option<(usize, usize)>,
)
    requires
        is_longest_match(a, las, cls, input, pos, r),
    ensures
        longest_at(a, las, cls, input, pos) == r,
{
    let c = choose|r2: Option<(usize, usize)>| is_longest_match(a, las, cls, input, pos, r2);
    lemma_longest_unique(a, las, cls, input, pos, c, r);
}

/// The patterns of a scanner mode compiled into one automaton, with the token type and the
/// compiled lookahead of each pattern.
#[derive(Debug, Clone)]
pub struct CompiledNfa {
    /// The regular expressions of the patterns.
    pub patterns: Vec<String>,
    /// The automaton; its accepting states carry the number of their pattern.
    pub automaton: Automaton,
    /// The token type of each pattern.
    pub terminal_ids: Vec<usize>,
    /// The compiled lookahead of each pattern, if it has one.
    pub lookaheads: Vec<Option<CompiledLookahead>>,
}

impl CompiledNfa {
    /// The lookaheads as their polarities and automata.
    pub open spec fn lookahead_views(&self) -> Seq<LookaheadView> {
        self.lookaheads@.map_values(|l: Option<CompiledLookahead>| match l {
            Some(c) => Some((c.is_positive, c.automaton@)),
            None => None,
        })
    }

    /// The automata are well formed and built from NFAs: the main automaton from one NFA per
    /// pattern, each lookahead automaton from a single one; every pattern number of an accepting
    /// state has a token type and a lookahead entry.
    pub open spec fn wf(&self) -> bool {
        &&& aut_wf(self.automaton@)
        &&& self.terminal_ids@.len() == self.lookaheads@.len()
        &&& forall|u: int| 0 <= u < self.automaton@.len() ==> (#[trigger] self.automaton@[u].accept matches Some(p) ==> p < self.lookaheads@.len())
        &&& forall|p: int| 0 <= p < self.lookaheads@.len() ==> (#[trigger] self.lookaheads@[p] matches Some(l) ==> aut_wf(l.automaton@)
            && single_pattern_automaton(l.automaton@))
        &&& automaton_of_patterns(self.automaton@, self.lookaheads@.len())
    }

    /// Whether the lookahead of pattern `p` holds at position `end`.
    pub(crate) fn lookahead_satisfied(&self, reg: &CharacterClassRegistry, p: usize, input: &Vec<char>, end: usize) -> (r: bool)
        requires
            self.wf(),
            p < self.lookaheads@.len(),
            end <= input@.len(),
        ensures
            r == lookahead_ok(self.lookahead_views()[p as int], reg.class_matchers(), input@, end as int),
    {
        match &self.lookaheads[p] {
            None => true,
            Some(la) => {
                assert(self.lookaheads@[p as int] matches Some(l) && aut_wf(l.automaton@));
                la.automaton.match_nonempty(reg, input, end) == la.is_positive
            },
        }
    }

    /// The lowest number of a pattern that matches the `k` characters from `pos` on, given the
    /// set of states reached after them.
    fn best_pattern_at(
        &self,
        reg: &CharacterClassRegistry,
        cur: &Vec<bool>,
        input: &Vec<char>,
        pos: usize,
        end: usize,
        Ghost(k): Ghost<nat>,
    ) -> (r: Option<usize>)
        requires
            self.wf(),
            is_run_set(self.automaton@, reg.class_matchers(), input@, pos as int, k, cur@),
            1 <= k,
            end == pos + k,
            end <= input@.len(),
        ensures
            r is None ==> forall|p: int| !#[trigger] match_valid(self.automaton@, self.lookahead_views(), reg.class_matchers(), input@, pos as int, k, p),
            r matches Some(p) ==> match_valid(self.automaton@, self.lookahead_views(), reg.class_matchers(), input@, pos as int, k, p as int)
                && forall|p2: int| #[trigger] match_valid(self.automaton@, self.lookahead_views(), reg.class_matchers(), input@, pos as int, k, p2) ==> p <= p2,
    {
        let ghost a = self.automaton@;
        let ghost las = self.lookahead_views();
        let ghost cls = reg.class_matchers();
        let n = self.automaton.states.len();
        let mut best: Option<usize> = None;
        let mut u: usize = 0;
        while u < n
            invariant
                a == self.automaton@,
                las == self.lookahead_views(),
                cls == reg.class_matchers(),
                self.wf(),
                n == a.len(),
                is_run_set(a, cls, input@, pos as int, k, cur@),
                1 <= k,
                end == pos + k,
                end <= input@.len(),
                u <= n,
                best matches Some(b) ==> match_valid(a, las, cls, input@, pos as int, k, b as int),
                forall|u2: int| 0 <= u2 < u && #[trigger] cur@[u2] ==> ((a[u2].accept matches Some(p)
                    && lookahead_ok(las[p as int], cls, input@, end as int)) ==> (best matches Some(b) && b <= a[u2].accept->0)),
            decreases n - u,
        {
            assert(self.automaton.states@[u as int]@ == a[u as int]);
            if cur[u] {
                match self.automaton.states[u].accept {
                    Some(p) => {
                        let improve = match best {
                            None => true,
                            Some(b) => p < b,
                        };
                        if improve && self.lookahead_satisfied(reg, p, input, end) {
                            proof {
                                assert(in_run(a, cls, input@, pos as int, k, u as int));
                                assert(match_valid(a, las, cls, input@, pos as int, k, p as int));
                            }
                            best = Some(p);
                        }
                    },
                    None => {},
                }
            }
            u = u + 1;
        }
        let nl = self.lookaheads.len();
        proof {
            assert forall|p2: int| #[trigger] match_valid(a, las, cls, input@, pos as int, k, p2) implies (best matches Some(b) && b <= p2) by {
                let w = choose|w: int| 0 <= w < a.len() && #[trigger] in_run(a, cls, input@, pos as int, k, w) && a[w].accept == Some(p2 as usize);
                assert(p2 < nl);
                assert(p2 as usize as int == p2);
                assert(cur@[w]);
            }
        }
        best
    }

    /// The longest match from position `pos` on, as the number of its pattern and the number
    /// of its characters; among matches of equal length the pattern with the lowest number wins.
    /// A pattern matches where its accepting state is reached and its lookahead holds behind
    /// the match. Empty matches are not considered.
    pub fn find_from(&self, reg: &CharacterClassRegistry, input: &Vec<char>, pos: usize) -> (r: Option<(usize, usize)>)
        requires
            self.wf(),
            pos <= input@.len(),
        ensures
            is_longest_match(self.automaton@, self.lookahead_views(), reg.class_matchers(), input@, pos as int, r),
    {
        let ghost a = self.automaton@;
        let ghost las = self.lookahead_views();
        let ghost cls = reg.class_matchers();
        let mut cur = self.automaton.start_set();
        proof {
            assert forall|u: int| 0 <= u < a.len() implies (#[trigger] cur@[u] <==> in_run(a, cls, input@, pos as int, 0, u)) by {
                assert(run_set(a, cls, input@, pos as int, 0).contains(u) == reachable(aut_eps(a), 0, u));
            }
        }
        let mut k: usize = 0;
        let mut alive = true;
        let mut best: Option<(usize, usize)> = None;
        while k < input.len() - pos && alive
            invariant
                a == self.automaton@,
                las == self.lookahead_views(),
                cls == reg.class_matchers(),
                self.wf(),
                pos + k <= input@.len(),
                is_run_set(a, cls, input@, pos as int, k as nat, cur@),
                !alive ==> forall|v: int| !#[trigger] in_run(a, cls, input@, pos as int, k as nat, v),
                best is None ==> forall|k2: nat, p: int| k2 <= k ==> !#[trigger] match_valid(a, las, cls, input@, pos as int, k2, p),
                best matches Some((p, k0)) ==> {
                    &&& match_valid(a, las, cls, input@, pos as int, k0 as nat, p as int)
                    &&& k0 <= k
                    &&& forall|k2: nat, p2: int| k2 <= k && #[trigger] match_valid(a, las, cls, input@, pos as int, k2, p2) ==> k2 < k0 || (k2 == k0 && p <= p2)
                },
            decreases input@.len() - pos - k,
        {
            let next = self.automaton.step(reg, &cur, input[pos + k]);
            proof {
                lemma_run_step(a, cls, input@, pos as int, k as nat, cur@, next@);
            }
            k = k + 1;
            cur = next;
            let any = Automaton::any_state(&cur);
            match self.best_pattern_at(reg, &cur, input, pos, pos + k, Ghost(k as nat)) {
                Some(p) => {
                    best = Some((p, k));
                },
                None => {},
            }
            if !any {
                proof {
                    assert forall|v: int| !#[trigger] in_run(a, cls, input@, pos as int, k as nat, v) by {
                        if in_run(a, cls, input@, pos as int, k as nat, v) {
                            lemma_run_in_range(a, cls, input@, pos as int, k as nat, v);
                            assert(cur@[v]);
                        }
                    }
                }
                alive = false;
            }
        }
        proof {
            assert forall|k2: nat, p2: int| k2 > k implies !#[trigger] match_valid(a, las, cls, input@, pos as int, k2, p2) by {
                if match_valid(a, las, cls, input@, pos as int, k2, p2) {
                    assert(!alive);
                    let w = choose|w: int| 0 <= w < a.len() && #[trigger] in_run(a, cls, input@, pos as int, k2, w) && a[w].accept == Some(p2 as usize);
                    lemma_run_dead(a, cls, input@, pos as int, k as nat, k2, w);
                }
            }
        }
        best
    }
}

/// The lookahead and the lookahead of a pattern are both absent, or both present with the
/// same polarity.
pub open spec fn same_polarity(la: LookaheadView, pl: Option<(bool, Seq<char>)>) -> bool {
    match la {
        Some((a, _)) => pl matches Some((b, _)) && a == b,
        None => pl is None,
    }
}

/// The compiled lookahead and the lookahead of a pattern are both absent, or both present
/// with the same polarity.
pub open spec fn compiled_same_polarity(la: Option<CompiledLookahead>, pl: Option<(bool, Seq<char>)>) -> bool {
    match la {
        Some(c) => pl matches Some((b, _)) && c.is_positive == b,
        None => pl is None,
    }
}

/// The automaton of the patterns and the automata of their lookaheads are built from regular
/// expression trees under the registry of `keys` and `cls` (see [automaton_from_trees]).
pub open spec fn patterns_from_trees(cn: CompiledNfa, keys: Seq<KeyView>, cls: Seq<CharMatcher>) -> bool {
    &&& automaton_from_trees(cn.automaton@, cn.terminal_ids@.len(), keys, cls)
    &&& forall|p: int| 0 <= p < cn.terminal_ids@.len() ==> (#[trigger] cn.lookahead_views()[p] matches Some((pos, la))
        ==> automaton_from_trees(la, 1, keys, cls))
}

/// Compiled patterns built from trees under a registry are so under every extension of it.
pub proof fn lemma_patterns_from_trees_cn_extend(
    cn: CompiledNfa,
    keys: Seq<KeyView>,
    cls: Seq<CharMatcher>,
    keys_b: Seq<KeyView>,
    cls_b: Seq<CharMatcher>,
)
    requires
        patterns_from_trees(cn, keys, cls),
        registry_extends(keys, cls, keys_b, cls_b),
    ensures
        patterns_from_trees(cn, keys_b, cls_b),
{
    lemma_automaton_from_trees_extend(cn.automaton@, cn.terminal_ids@.len(), keys, cls, keys_b, cls_b);
    assert forall|p: int| 0 <= p < cn.terminal_ids@.len() implies (#[trigger] cn.lookahead_views()[p] matches Some((pos, la))
        ==> automaton_from_trees(la, 1, keys_b, cls_b)) by {
        if cn.lookahead_views()[p] is Some {
            let la = cn.lookahead_views()[p]->Some_0.1;
            lemma_automaton_from_trees_extend(la, 1, keys, cls, keys_b, cls_b);
        }
    }
}

/// The compiled NFA is well formed and has the token types, texts and lookahead polarities of
/// the patterns, in order.
pub open spec fn compiled_from(cn: CompiledNfa, patterns: Seq<Pattern>) -> bool {
    &&& cn.wf()
    &&& cn.terminal_ids@.len() == patterns.len()
    &&& cn.patterns@.len() == patterns.len()
    &&& forall|k: int| 0 <= k < patterns.len() ==> {
        &&& #[trigger] cn.terminal_ids@[k] == patterns[k].spec_token_type()
        &&& cn.patterns@[k]@ == patterns[k].spec_pattern()
        &&& same_polarity(cn.lookahead_views()[k], patterns[k].spec_lookahead())
    }
}

/// What the parts of compiled patterns give: a well-formed compiled NFA with the token types,
/// texts and lookahead polarities of the patterns, built from trees.
proof fn lemma_compiled_patterns(
    r: CompiledNfa,
    mp: MultiPatternNfa,
    m: nat,
    patterns: Seq<Pattern>,
    keys_a: Seq<KeyView>,
    cls_a: Seq<CharMatcher>,
    keys_b: Seq<KeyView>,
    cls_b: Seq<CharMatcher>,
)
    requires
        mp.wf(m),
        mp.nfas@.len() == patterns.len(),
        forall|k: int| 0 <= k < patterns.len() ==> #[trigger] pattern_from_tree(mp, k, keys_a, cls_a),
        registry_extends(keys_a, cls_a, keys_b, cls_b),
        aut_wf(r.automaton@),
        automaton_of(r.automaton@, mp),
        forall|u: int| 0 <= u < r.automaton@.len() ==> (#[trigger] r.automaton@[u].accept matches Some(p) ==> p < mp.nfas@.len()),
        r.terminal_ids@.len() == patterns.len(),
        r.patterns@.len() == patterns.len(),
        forall|p: int| 0 <= p < patterns.len() ==> #[trigger] r.terminal_ids@[p] == patterns[p].spec_token_type()
            && r.patterns@[p]@ == patterns[p].spec_pattern(),
        r.lookaheads@.len() == patterns.len(),
        forall|p: int| 0 <= p < patterns.len() ==> (#[trigger] r.lookaheads@[p] matches Some(l) ==> aut_wf(l.automaton@)
            && single_pattern_automaton(l.automaton@)
            && automaton_from_trees(l.automaton@, 1, keys_b, cls_b))
            && compiled_same_polarity(r.lookaheads@[p], patterns[p].spec_lookahead()),
    ensures
        compiled_from(r, patterns),
        patterns_from_trees(r, keys_b, cls_b),
{
    assert(automaton_of_patterns(r.automaton@, r.lookaheads@.len()));
    let lv = r.lookahead_views();
    assert forall|p: int| 0 <= p < patterns.len() implies {
        &&& #[trigger] r.terminal_ids@[p] == patterns[p].spec_token_type()
        &&& r.patterns@[p]@ == patterns[p].spec_pattern()
        &&& same_polarity(lv[p], patterns[p].spec_lookahead())
    } by {
        assert(r.lookaheads@[p] matches Some(l) ==> l.is_positive == (patterns[p].spec_lookahead()->0).0);
        assert(lv[p] == match r.lookaheads@[p] {
            Some(c) => Some((c.is_positive, c.automaton@)),
            None => None,
        });
    }
    assert(automaton_from_trees(r.automaton@, patterns.len(), keys_a, cls_a));
    lemma_automaton_from_trees_extend(r.automaton@, patterns.len(), keys_a, cls_a, keys_b, cls_b);
    assert forall|p: int| 0 <= p < r.terminal_ids@.len() implies (#[trigger] lv[p] matches Some((pos, la)) ==>
        automaton_from_trees(la, 1, keys_b, cls_b)) by {
        assert(lv[p] == match r.lookaheads@[p] {
            Some(c) => Some((c.is_positive, c.automaton@)),
            None => None,
        });
    }
}

impl CompiledLookahead {
    /// Compiles a lookahead, registering its character classes. A pattern that `regex_syntax`
    /// cannot parse gives its parse error.
    pub fn try_from_lookahead(
        lookahead: &Lookahead,
        character_class_registry: &mut CharacterClassRegistry,
    ) -> (r: Result<Self, ScnrError>)
        requires
            old(character_class_registry).wf(),
        ensures
            final(character_class_registry).wf(),
            keys_extend(old(character_class_registry).keys(), final(character_class_registry).keys()),
            registry_grew(*old(character_class_registry), *final(character_class_registry)),
            r is Ok ==> parse_outcome(lookahead.pattern@) is None,
            r matches Ok(c) ==> aut_wf(c.automaton@) && c.is_positive == lookahead.is_positive
                && single_pattern_automaton(c.automaton@)
                && automaton_from_trees(c.automaton@, 1, final(character_class_registry).keys(), final(character_class_registry).class_matchers()),
    {
        proof {
            character_class_registry.lemma_views();
            lemma_registry_extends(character_class_registry.keys(), character_class_registry.class_matchers(),
                character_class_registry.keys(), character_class_registry.class_matchers(),
                character_class_registry.keys(), character_class_registry.class_matchers());
        }
        let ast = parse_regex_syntax(lookahead.pattern())?;
        let nfa = Nfa::try_from_ast(ast, character_class_registry)?;
        let ghost m = character_class_registry.keys().len();
        let ghost built = nfa@;
        let ghost t = choose|t: RegexTree| tree_refusal(t) is None && #[trigger] built_from_tree(nfa, t, *character_class_registry);
        let mut mp = MultiPatternNfa::new();
        proof {
            crate::multi_pattern_nfa::lemma_wf_mono(mp, 0, m);
        }
        mp.add_nfa(nfa, Pattern::new(lookahead.pattern.clone(), 0), Ghost(m))?;
        let automaton = Automaton::from_multi_pattern_nfa(&mp, Ghost(m));
        assert(automaton_of(automaton@, mp) && mp.wf(m) && mp.nfas@.len() == 1);
        proof {
            assert(pattern_nfa(mp, 0) == built);
            assert(pattern_from_tree(mp, 0, character_class_registry.keys(), character_class_registry.class_matchers()));
        }
        Ok(CompiledLookahead { automaton, is_positive: lookahead.is_positive })
    }
}

impl CompiledNfa {
    /// Compiles a multi-pattern NFA whose character classes are registered: its automaton, the
    /// token types and texts of its patterns, and their lookaheads, whose character classes are
    /// registered. A lookahead that `regex_syntax` cannot parse gives its parse error.
    pub fn from_multi_pattern_nfa(
        mp: &MultiPatternNfa,
        character_class_registry: &mut CharacterClassRegistry,
    ) -> (r: Result<Self, ScnrError>)
        requires
            old(character_class_registry).wf(),
            mp.wf(old(character_class_registry).keys().len()),
        ensures
            final(character_class_registry).wf(),
            keys_extend(old(character_class_registry).keys(), final(character_class_registry).keys()),
            registry_grew(*old(character_class_registry), *final(character_class_registry)),
            r matches Ok(cn) ==> {
                &&& cn.wf()
                &&& automaton_of(cn.automaton@, *mp)
                &&& cn.terminal_ids@.len() == mp.patterns@.len()
                &&& cn.patterns@.len() == mp.patterns@.len()
                &&& cn.lookaheads@.len() == mp.patterns@.len()
                &&& forall|p: int| 0 <= p < mp.patterns@.len() ==> #[trigger] cn.terminal_ids@[p] == mp.patterns@[p].spec_token_type()
                    && cn.patterns@[p]@ == mp.patterns@[p].spec_pattern()
                    && compiled_same_polarity(cn.lookaheads@[p], mp.patterns@[p].spec_lookahead())
            },
            (forall|p: int| 0 <= p < mp.patterns@.len() ==> (#[trigger] mp.patterns@[p].spec_lookahead()) is None) ==> r is Ok,
    {
        let ghost m = character_class_registry.keys().len();
        let automaton = Automaton::from_multi_pattern_nfa(mp, Ghost(m));
        let (terminal_ids, texts) = Self::pattern_data(mp.patterns.as_slice());
        let lookaheads = match Self::compile_lookaheads(mp.patterns.as_slice(), character_class_registry) {
            Ok(las) => las,
            Err(e) => return Err(e),
        };
        let r = CompiledNfa { patterns: texts, automaton, terminal_ids, lookaheads };
        proof {
            assert(automaton_of_patterns(r.automaton@, r.lookaheads@.len()));
        }
        Ok(r)
    }

    /// The token types and regular expressions of the patterns.
    fn pattern_data(patterns: &[Pattern]) -> (r: (Vec<usize>, Vec<String>))
        ensures
            r.0@.len() == patterns@.len(),
            r.1@.len() == patterns@.len(),
            forall|p: int| 0 <= p < patterns@.len() ==> #[trigger] r.0@[p] == patterns@[p].spec_token_type() && r.1@[p]@ == patterns@[p].spec_pattern(),
    {
        let mut terminal_ids: Vec<usize> = Vec::new();
        let mut texts: Vec<String> = Vec::new();
        let mut k: usize = 0;
        while k < patterns.len()
            invariant
                k <= patterns@.len(),
                terminal_ids@.len() == k,
                texts@.len() == k,
                forall|p: int| 0 <= p < k ==> #[trigger] terminal_ids@[p] == patterns@[p].spec_token_type() && texts@[p]@ == patterns@[p].spec_pattern(),
            decreases patterns@.len() - k,
        {
            terminal_ids.push(patterns[k].terminal_id());
            texts.push(patterns[k].pattern().to_owned());
            k = k + 1;
        }
        (terminal_ids, texts)
    }

    /// The compiled lookaheads of the patterns, in order.
    fn compile_lookaheads(
        patterns: &[Pattern],
        character_class_registry: &mut CharacterClassRegistry,
    ) -> (r: Result<Vec<Option<CompiledLookahead>>, ScnrError>)
        requires
            old(character_class_registry).wf(),
        ensures
            final(character_class_registry).wf(),
            keys_extend(old(character_class_registry).keys(), final(character_class_registry).keys()),
            registry_grew(*old(character_class_registry), *final(character_class_registry)),
            r is Ok ==> forall|p: int| 0 <= p < patterns@.len() ==>
                (#[trigger] patterns@[p].spec_lookahead() matches Some((_, t)) ==> parse_outcome(t) is None),
            (forall|p: int| 0 <= p < patterns@.len() ==> (#[trigger] patterns@[p].spec_lookahead()) is None) ==> r is Ok,
            r matches Ok(las) ==> las@.len() == patterns@.len()
                && forall|p: int| 0 <= p < patterns@.len() ==> (#[trigger] las@[p] matches Some(l) ==> aut_wf(l.automaton@)
                    && single_pattern_automaton(l.automaton@)
                    && automaton_from_trees(l.automaton@, 1, final(character_class_registry).keys(), final(character_class_registry).class_matchers()))
                    && compiled_same_polarity(las@[p], patterns@[p].spec_lookahead()),
    {
        let ghost keys0 = character_class_registry.keys();
        let ghost cls0 = character_class_registry.class_matchers();
        proof {
            character_class_registry.lemma_views();
            lemma_registry_extends(keys0, cls0, keys0, cls0, keys0, cls0);
        }
        let mut lookaheads: Vec<Option<CompiledLookahead>> = Vec::new();
        let mut k: usize = 0;
        while k < patterns.len()
            invariant
                k <= patterns@.len(),
                keys0 == old(character_class_registry).keys(),
                cls0 == old(character_class_registry).class_matchers(),
                character_class_registry.wf(),
                keys_extend(old(character_class_registry).keys(), character_class_registry.keys()),
                registry_extends(keys0, cls0, character_class_registry.keys(), character_class_registry.class_matchers()),
                lookaheads@.len() == k,
                forall|p: int| 0 <= p < k ==>
                    (#[trigger] patterns@[p].spec_lookahead() matches Some((_, t)) ==> parse_outcome(t) is None),
                forall|p: int| 0 <= p < k ==> (#[trigger] lookaheads@[p] matches Some(l) ==> aut_wf(l.automaton@)
                    && single_pattern_automaton(l.automaton@)
                    && automaton_from_trees(l.automaton@, 1, character_class_registry.keys(), character_class_registry.class_matchers()))
                    && compiled_same_polarity(lookaheads@[p], patterns@[p].spec_lookahead()),
            decreases patterns@.len() - k,
        {
            match patterns[k].lookahead() {
                Some(la) => {
                    let ghost keys_a = character_class_registry.keys();
                    let ghost cls_a = character_class_registry.class_matchers();
                    let ghost before = lookaheads@;
                    let compiled = match CompiledLookahead::try_from_lookahead(la, character_class_registry) {
                        Ok(c) => c,
                        Err(e) => {
                            proof {
                                lemma_registry_extends(keys0, cls0, keys_a, cls_a,
                                    character_class_registry.keys(), character_class_registry.class_matchers());
                            }
                            return Err(e);
                        },
                    };
                    lookaheads.push(Some(compiled));
                    proof {
                        let keys_b = character_class_registry.keys();
                        let cls_b = character_class_registry.class_matchers();
                        lemma_registry_extends(keys0, cls0, keys_a, cls_a, keys_b, cls_b);
                        assert forall|p: int| 0 <= p < k + 1 implies (#[trigger] lookaheads@[p] matches Some(l) ==> aut_wf(l.automaton@)
                            && single_pattern_automaton(l.automaton@)
                            && automaton_from_trees(l.automaton@, 1, keys_b, cls_b))
                            && compiled_same_polarity(lookaheads@[p], patterns@[p].spec_lookahead()) by {
                            if p < k {
                                assert(lookaheads@[p] == before[p]);
                                if lookaheads@[p] is Some {
                                    lemma_automaton_from_trees_extend(lookaheads@[p]->Some_0.automaton@, 1, keys_a, cls_a, keys_b, cls_b);
                                }
                            }
                        }
                    }
                },
                None => {
                    lookaheads.push(None);
                },
            }
            k = k + 1;
        }
        Ok(lookaheads)
    }

    /// Compiles the patterns of a scanner mode into one automaton, registering their character
    /// classes; the lookaheads are compiled after all patterns. The errors are those of
    /// [MultiPatternNfa::try_from_patterns] and [CompiledLookahead::try_from_lookahead].
    pub fn try_from_patterns(
        patterns: &[Pattern],
        character_class_registry: &mut CharacterClassRegistry,
    ) -> (r: Result<Self, ScnrError>)
        requires
            old(character_class_registry).wf(),
        ensures
            final(character_class_registry).wf(),
            keys_extend(old(character_class_registry).keys(), final(character_class_registry).keys()),
            registry_grew(*old(character_class_registry), *final(character_class_registry)),
            r matches Ok(cn) ==> patterns_from_trees(cn, final(character_class_registry).keys(), final(character_class_registry).class_matchers()),
            r matches Ok(cn) ==> compiled_from(cn, patterns@),
            r is Ok ==> forall|k: int| 0 <= k < patterns@.len() ==> pattern_parses(#[trigger] patterns@[k]),
            patterns@.len() == 0 ==> r is Ok,
    {
        proof {
            character_class_registry.lemma_views();
            lemma_registry_extends(character_class_registry.keys(), character_class_registry.class_matchers(),
                character_class_registry.keys(), character_class_registry.class_matchers(),
                character_class_registry.keys(), character_class_registry.class_matchers());
        }
        let mp = MultiPatternNfa::try_from_patterns(patterns, character_class_registry)?;
        let ghost m = character_class_registry.keys().len();
        let ghost keys_a = character_class_registry.keys();
        let ghost cls_a = character_class_registry.class_matchers();
        let automaton = Automaton::from_multi_pattern_nfa(&mp, Ghost(m));
        let (terminal_ids, texts) = Self::pattern_data(patterns);
        let lookaheads = match Self::compile_lookaheads(patterns, character_class_registry) {
            Ok(las) => las,
            Err(e) => {
                proof {
                    lemma_registry_extends(old(character_class_registry).keys(), old(character_class_registry).class_matchers(),
                        keys_a, cls_a, character_class_registry.keys(), character_class_registry.class_matchers());
                }
                return Err(e);
            },
        };
        proof {
            lemma_registry_extends(old(character_class_registry).keys(), old(character_class_registry).class_matchers(),
                keys_a, cls_a, character_class_registry.keys(), character_class_registry.class_matchers());
        }
        let r = CompiledNfa { patterns: texts, automaton, terminal_ids, lookaheads };
        proof {
            lemma_compiled_patterns(r, mp, m, patterns@, keys_a, cls_a,
                character_class_registry.keys(), character_class_registry.class_matchers());
        }
        Ok(r)
    }
}

} // verus!
