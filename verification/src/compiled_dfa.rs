//! The automaton of a scanner mode made deterministic by subset construction.
//!
//! The character classes are first split into elementary intervals, within each of which every
//! class holds for all characters or for none. A state of the deterministic automaton is a set
//! of states of the compiled NFA; on an interval it goes to the set of states reached from its
//! own by a transition on a character of the interval followed by epsilon transitions. Reading
//! the input, the deterministic automaton is always in the set of states the NFA would be in,
//! so it finds the same longest match.
use vstd::prelude::*;
use crate::char_matcher::CharMatcher;
use crate::character_class::{
    classes_constant_on, elementary_intervals, intervals_cover, intervals_sorted, CharacterClassRegistry,
};
use crate::compiled_nfa::{
    accepts_after, aut_eps, aut_wf, automaton_of, class_has, compiled_from, compiled_same_polarity, in_run, patterns_from_trees, is_longest_match, is_run_set, lemma_run_dead, lemma_run_in_range,
    lemma_run_step, lookahead_ok, match_valid, run_set, step_has, Automaton, AutomatonStateView, CompiledNfa,
};
use crate::errors::ScnrError;
use crate::graph::reachable;
use crate::multi_pattern_nfa::MultiPatternNfa;
use crate::nfa::{built_nfa, keys_extend, registry_grew, Nfa};
use crate::automaton_language::pattern_nfa;
use crate::pattern::{pattern_parses, Pattern};
use crate::match_type::Match;
use crate::span::Span;
use crate::text::lemma_byte_offset_mono;
use crate::scanner_nfa_impl::byte_offsets_of;

verus! {

/// A deterministic automaton built from a compiled NFA.
#[derive(Debug, Clone)]
pub struct CompiledDfa {
    /// The compiled NFA: the patterns, their token types in priority order, the automaton whose
    /// states make up the states of this one, and the lookaheads.
    pub nfa: CompiledNfa,
    /// The elementary intervals of the character classes.
    pub intervals: Vec<(char, char)>,
    /// For each state, the set of states of the compiled NFA it stands for.
    pub sets: Vec<Vec<bool>>,
    /// For each state, its transitions: the number of an interval and the target state.
    pub transitions: Vec<Vec<(usize, usize)>>,
    /// For each state, the numbers of the patterns whose accepting states it contains.
    pub accepting: Vec<Vec<usize>>,
}

/// Reading `c` from the states of `cur` reaches the same states as reading the first character
/// of the interval `j` where `c` lies in it.
pub proof fn lemma_step_on_interval(
    a: Seq<AutomatonStateView>,
    cls: Seq<CharMatcher>,
    cur: Seq<bool>,
    iv: Seq<(char, char)>,
    j: int,
    c: char,
    u: int,
)
    requires
        classes_constant_on(cls, iv),
        0 <= j < iv.len(),
        iv[j].0 <= c <= iv[j].1,
    ensures
        step_has(a, cls, cur, c, u) == step_has(a, cls, cur, iv[j].0, u),
{
    if step_has(a, cls, cur, c, u) {
        let (s, e) = choose|s: int, e: int|
            #![trigger cur[s], a[s].trans[e]]
            0 <= s < a.len() && cur[s] && 0 <= e < a[s].trans.len() && class_has(cls, a[s].trans[e].0, c)
                && reachable(aut_eps(a), a[s].trans[e].1 as int, u);
        let cc = a[s].trans[e].0 as int;
        assert(crate::char_matcher::matcher_has(cls[cc], c) == crate::char_matcher::matcher_has(cls[cc], iv[j].0));
        assert(class_has(cls, a[s].trans[e].0, iv[j].0));
    }
    if step_has(a, cls, cur, iv[j].0, u) {
        let (s, e) = choose|s: int, e: int|
            #![trigger cur[s], a[s].trans[e]]
            0 <= s < a.len() && cur[s] && 0 <= e < a[s].trans.len() && class_has(cls, a[s].trans[e].0, iv[j].0)
                && reachable(aut_eps(a), a[s].trans[e].1 as int, u);
        let cc = a[s].trans[e].0 as int;
        assert(crate::char_matcher::matcher_has(cls[cc], c) == crate::char_matcher::matcher_has(cls[cc], iv[j].0));
        assert(class_has(cls, a[s].trans[e].0, c));
    }
}

/// A character that lies in no interval is in no class, so reading it reaches no state.
pub proof fn lemma_step_outside(
    a: Seq<AutomatonStateView>,
    cls: Seq<CharMatcher>,
    cur: Seq<bool>,
    iv: Seq<(char, char)>,
    c: char,
    u: int,
)
    requires
        intervals_cover(cls, iv),
        forall|j: int| 0 <= j < iv.len() ==> !((#[trigger] iv[j]).0 <= c <= iv[j].1),
    ensures
        !step_has(a, cls, cur, c, u),
{
    if step_has(a, cls, cur, c, u) {
        let (s, e) = choose|s: int, e: int|
            #![trigger cur[s], a[s].trans[e]]
            0 <= s < a.len() && cur[s] && 0 <= e < a[s].trans.len() && class_has(cls, a[s].trans[e].0, c)
                && reachable(aut_eps(a), a[s].trans[e].1 as int, u);
        let cc = a[s].trans[e].0 as int;
        assert(crate::char_matcher::matcher_has(cls[cc], c));
    }
}

/// The states reached from the set `cur` on the first character of interval `j` are some.
pub open spec fn step_nonempty(a: Seq<AutomatonStateView>, cls: Seq<CharMatcher>, cur: Seq<bool>, c: char) -> bool {
    exists|u: int| 0 <= u < a.len() && #[trigger] step_has(a, cls, cur, c, u)
}

/// Pattern `p` is accepted in the set of states `set`.
pub open spec fn set_accepts(a: Seq<AutomatonStateView>, set: Seq<bool>, p: usize) -> bool {
    exists|u: int| 0 <= u < a.len() && #[trigger] set[u] && a[u].accept == Some(p)
}

impl CompiledDfa {
    /// The set of states of the compiled NFA that state `d` stands for.
    pub open spec fn set_of(&self, d: int) -> Seq<bool> {
        self.sets@[d]@
    }

    /// The automaton is the subset construction of the compiled NFA under the classes `cls`:
    /// the intervals are elementary intervals of the classes; state 0 stands for the epsilon
    /// closure of the NFA's start state; a transition on an interval leads to the state that
    /// stands for the states reached on the interval's first character, and there is one for
    /// every interval on which states are reached; the accepting patterns of a state are those
    /// of the accepting states of its set.
    #[verifier::opaque]
    pub open spec fn wf(&self, cls: Seq<CharMatcher>) -> bool {
        let a = self.nfa.automaton@;
        let iv = self.intervals@;
        let n = self.sets@.len();
        &&& self.nfa.wf()
        &&& elementary_intervals(cls, iv)
        &&& n >= 1
        &&& self.transitions@.len() == n
        &&& self.accepting@.len() == n
        &&& forall|d: int| 0 <= d < n ==> (#[trigger] self.set_of(d)).len() == a.len()
        &&& forall|u: int| 0 <= u < a.len() ==> (#[trigger] self.set_of(0)[u] <==> reachable(aut_eps(a), 0, u))
        &&& forall|d: int, e: int| 0 <= d < n && 0 <= e < self.transitions@[d]@.len() ==> {
            let (j, t) = #[trigger] self.transitions@[d]@[e];
            &&& j < iv.len()
            &&& t < n
            &&& forall|u: int| 0 <= u < a.len() ==> (#[trigger] self.set_of(t as int)[u] <==> step_has(a, cls, self.set_of(d), iv[j as int].0, u))
        }
        &&& forall|d: int, j: int| 0 <= d < n && 0 <= j < iv.len() && #[trigger] step_nonempty(a, cls, self.set_of(d), iv[j].0)
            ==> exists|e: int| 0 <= e < self.transitions@[d]@.len() && (#[trigger] self.transitions@[d]@[e]).0 == j
        &&& forall|d: int, p: usize| 0 <= d < n ==> (#[trigger] self.accepting@[d]@.contains(p) <==> set_accepts(a, self.set_of(d), p))
    }

    /// The compiled NFA of a well-formed automaton is well formed, and so are its intervals.
    pub proof fn lemma_wf(&self, cls: Seq<CharMatcher>)
        requires
            self.wf(cls),
        ensures
            self.nfa.wf(),
            aut_wf(self.nfa.automaton@),
            elementary_intervals(cls, self.intervals@),
            self.sets@.len() >= 1,
            self.transitions@.len() == self.sets@.len(),
            self.accepting@.len() == self.sets@.len(),
            forall|d: int| 0 <= d < self.sets@.len() ==> (#[trigger] self.set_of(d)).len() == self.nfa.automaton@.len(),
            forall|u: int| 0 <= u < self.nfa.automaton@.len() ==> (#[trigger] self.set_of(0)[u] <==> reachable(aut_eps(self.nfa.automaton@), 0, u)),
    {
        reveal(CompiledDfa::wf);
    }

    /// The transitions of state `d` are right and complete.
    pub proof fn lemma_transitions(&self, cls: Seq<CharMatcher>, d: int)
        requires
            self.wf(cls),
            0 <= d < self.sets@.len(),
        ensures
            forall|e: int| 0 <= e < self.transitions@[d]@.len() ==> {
                let (j, t) = #[trigger] self.transitions@[d]@[e];
                &&& j < self.intervals@.len()
                &&& t < self.sets@.len()
                &&& forall|u: int| 0 <= u < self.nfa.automaton@.len() ==> (#[trigger] self.set_of(t as int)[u]
                    <==> step_has(self.nfa.automaton@, cls, self.set_of(d), self.intervals@[j as int].0, u))
            },
            forall|j: int| 0 <= j < self.intervals@.len() && #[trigger] step_nonempty(self.nfa.automaton@, cls, self.set_of(d), self.intervals@[j].0)
                ==> exists|e: int| 0 <= e < self.transitions@[d]@.len() && (#[trigger] self.transitions@[d]@[e]).0 == j,
    {
        reveal(CompiledDfa::wf);
    }

    /// The accepting patterns of state `d` are those of its set.
    pub proof fn lemma_accepting(&self, cls: Seq<CharMatcher>, d: int)
        requires
            self.wf(cls),
            0 <= d < self.sets@.len(),
        ensures
            self.nfa.wf(),
            self.accepting@.len() == self.sets@.len(),
            forall|p: usize| #[trigger] self.accepting@[d]@.contains(p) <==> set_accepts(self.nfa.automaton@, self.set_of(d), p),
    {
        reveal(CompiledDfa::wf);
    }

    /// The set of every state has an entry for each state of the compiled NFA.
    pub proof fn lemma_set_len(&self, cls: Seq<CharMatcher>, d: int)
        requires
            self.wf(cls),
            0 <= d < self.sets@.len(),
        ensures
            self.set_of(d).len() == self.nfa.automaton@.len(),
    {
        reveal(CompiledDfa::wf);
    }
}

/// Whether the two sets of states are equal.
fn sets_equal(x: &Vec<bool>, y: &Vec<bool>) -> (r: bool)
    ensures
        r == (x@ == y@),
{
    if x.len() != y.len() {
        return false;
    }
    let mut i: usize = 0;
    while i < x.len()
        invariant
            x@.len() == y@.len(),
            i <= x@.len(),
            forall|k: int| 0 <= k < i ==> x@[k] == y@[k],
        decreases x@.len() - i,
    {
        if x[i] != y[i] {
            return false;
        }
        i = i + 1;
    }
    assert(x@ =~= y@);
    true
}

/// The index of the set among the sets, which is appended where it is not yet there.
fn find_or_add(sets: &mut Vec<Vec<bool>>, set: Vec<bool>) -> (r: usize)
    ensures
        r < final(sets)@.len(),
        final(sets)@[r as int]@ == set@,
        final(sets)@ == old(sets)@ || final(sets)@ == old(sets)@.push(set),
{
    let mut i: usize = 0;
    while i < sets.len()
        invariant
            i <= sets@.len(),
            *sets == *old(sets),
        decreases sets@.len() - i,
    {
        if sets_equal(&sets[i], &set) {
            return i;
        }
        i = i + 1;
    }
    let n = sets.len();
    sets.push(set);
    n
}

/// The patterns accepted in the set of states, each once or more.
fn accepting_of(a: &Automaton, set: &Vec<bool>) -> (r: Vec<usize>)
    requires
        set@.len() == a@.len(),
    ensures
        forall|p: usize| #[trigger] r@.contains(p) <==> set_accepts(a@, set@, p),
{
    let mut r: Vec<usize> = Vec::new();
    let mut u: usize = 0;
    while u < set.len()
        invariant
            set@.len() == a@.len(),
            u <= set@.len(),
            forall|p: usize| #[trigger] r@.contains(p) <==> exists|v: int| 0 <= v < u && set@[v] && a@[v].accept == Some(p),
        decreases set@.len() - u,
    {
        assert(a.states@[u as int]@ == a@[u as int]);
        if set[u] {
            match a.states[u].accept {
                Some(p) => {
                    let ghost before = r@;
                    r.push(p);
                    proof {
                        assert forall|q: usize| #[trigger] r@.contains(q) <==> exists|v: int| 0 <= v < u + 1 && set@[v] && a@[v].accept == Some(q) by {
                            if r@.contains(q) && q != p {
                                let w = choose|w: int| 0 <= w < r@.len() && r@[w] == q;
                                assert(before[w] == q);
                                assert(before.contains(q));
                            }
                            if before.contains(q) {
                                let w = choose|w: int| 0 <= w < before.len() && before[w] == q;
                                assert(r@[w] == q);
                            }
                            if q == p {
                                assert(r@[before.len() as int] == p);
                            }
                        }
                    }
                },
                None => {},
            }
        }
        u = u + 1;
    }
    r
}

impl CompiledDfa {
    /// Builds the deterministic automaton of a compiled NFA by subset construction; the
    /// registry's elementary intervals are computed first.
    #[verifier::rlimit(50)]
    pub fn create_from_compiled(cn: CompiledNfa, reg: &mut CharacterClassRegistry) -> (r: CompiledDfa)
        requires
            cn.wf(),
            old(reg).wf(),
        ensures
            final(reg).wf(),
            final(reg).spec_classes() == old(reg).spec_classes(),
            final(reg).keys() == old(reg).keys(),
            final(reg).class_matchers() == old(reg).class_matchers(),
            r.nfa == cn,
            r.wf(final(reg).class_matchers()),
    {
        reg.create_disjoint_character_classes();
        let ghost cls = reg.class_matchers();
        let intervals = reg.intervals_copy();
        let ghost a = cn.automaton@;
        let ghost iv = intervals@;
        let mut sets: Vec<Vec<bool>> = Vec::new();
        sets.push(cn.automaton.start_set());
        let mut transitions: Vec<Vec<(usize, usize)>> = Vec::new();
        let mut accepting: Vec<Vec<usize>> = Vec::new();
        let mut i: usize = 0;
        while i < sets.len()
            invariant
                a == cn.automaton@,
                cls == reg.class_matchers(),
                iv == intervals@,
                reg.wf(),
                cn.wf(),
                aut_wf(a),
                elementary_intervals(cls, iv),
                sets@.len() >= 1,
                i <= sets@.len(),
                transitions@.len() == i,
                accepting@.len() == i,
                forall|d: int| 0 <= d < sets@.len() ==> (#[trigger] sets@[d])@.len() == a.len(),
                forall|u: int| 0 <= u < a.len() ==> (#[trigger] sets@[0]@[u] <==> reachable(aut_eps(a), 0, u)),
                forall|d: int, e: int| 0 <= d < i && 0 <= e < transitions@[d]@.len() ==> {
                    let (j, t) = #[trigger] transitions@[d]@[e];
                    &&& j < iv.len()
                    &&& t < sets@.len()
                    &&& forall|u: int| 0 <= u < a.len() ==> (#[trigger] sets@[t as int]@[u] <==> step_has(a, cls, sets@[d]@, iv[j as int].0, u))
                },
                forall|d: int, j: int| 0 <= d < i && 0 <= j < iv.len() && #[trigger] step_nonempty(a, cls, sets@[d]@, iv[j].0)
                    ==> exists|e: int| 0 <= e < transitions@[d]@.len() && (#[trigger] transitions@[d]@[e]).0 == j,
                forall|d: int, p: usize| 0 <= d < i ==> (#[trigger] accepting@[d]@.contains(p) <==> set_accepts(a, sets@[d]@, p)),
            decreases usize::MAX - i,
        {
            let mut row: Vec<(usize, usize)> = Vec::new();
            let mut j: usize = 0;
            let ghost sets0 = sets@;
            while j < intervals.len()
                invariant
                    sets@.len() >= sets0.len(),
                    forall|d: int| 0 <= d < sets0.len() ==> #[trigger] sets@[d] == sets0[d],
                    sets0.len() > i,
                    a == cn.automaton@,
                    cls == reg.class_matchers(),
                    iv == intervals@,
                    aut_wf(a),
                    i < sets@.len(),
                    j <= iv.len(),
                    forall|d: int| 0 <= d < sets@.len() ==> (#[trigger] sets@[d])@.len() == a.len(),
                    forall|e: int| 0 <= e < row@.len() ==> {
                        let (j2, t) = #[trigger] row@[e];
                        &&& j2 < iv.len()
                        &&& t < sets@.len()
                        &&& forall|u: int| 0 <= u < a.len() ==> (#[trigger] sets@[t as int]@[u] <==> step_has(a, cls, sets@[i as int]@, iv[j2 as int].0, u))
                    },
                    forall|j2: int| 0 <= j2 < j && #[trigger] step_nonempty(a, cls, sets@[i as int]@, iv[j2].0)
                        ==> exists|e: int| 0 <= e < row@.len() && (#[trigger] row@[e]).0 == j2,
                decreases iv.len() - j,
            {
                let next = cn.automaton.step(reg, &sets[i], intervals[j].0);
                if Automaton::any_state(&next) {
                    let ghost before = sets@;
                    let ghost next_view = next@;
                    let t = find_or_add(&mut sets, next);
                    let ghost row_before = row@;
                    row.push((j, t));
                    proof {
                        assert(sets@[i as int] == before[i as int]);
                        assert forall|d: int| 0 <= d < sets0.len() implies #[trigger] sets@[d] == sets0[d] by {
                            assert(sets@[d] == before[d]);
                        }
                        assert forall|d: int| 0 <= d < sets@.len() implies (#[trigger] sets@[d])@.len() == a.len() by {
                            if d < before.len() {
                                assert(sets@[d] == before[d]);
                            }
                        }
                        assert forall|e: int| 0 <= e < row@.len() implies {
                            let (j2, t2) = #[trigger] row@[e];
                            &&& j2 < iv.len()
                            &&& t2 < sets@.len()
                            &&& forall|u: int| 0 <= u < a.len() ==> (#[trigger] sets@[t2 as int]@[u] <==> step_has(a, cls, sets@[i as int]@, iv[j2 as int].0, u))
                        } by {
                            if e < row_before.len() {
                                assert(row@[e] == row_before[e]);
                                let (j2, t2) = row_before[e];
                                assert(sets@[t2 as int] == before[t2 as int]);
                            }
                        }
                        assert forall|j2: int| 0 <= j2 < j + 1 && #[trigger] step_nonempty(a, cls, sets@[i as int]@, iv[j2].0)
                            implies exists|e: int| 0 <= e < row@.len() && (#[trigger] row@[e]).0 == j2 by {
                            if j2 < j {
                                let e = choose|e: int| 0 <= e < row_before.len() && (#[trigger] row_before[e]).0 == j2;
                                assert(row@[e] == row_before[e]);
                            } else {
                                assert(row@[row_before.len() as int].0 == j2);
                            }
                        }
                    }
                } else {
                    proof {
                        assert forall|j2: int| 0 <= j2 < j + 1 && #[trigger] step_nonempty(a, cls, sets@[i as int]@, iv[j2].0)
                            implies exists|e: int| 0 <= e < row@.len() && (#[trigger] row@[e]).0 == j2 by {
                            if j2 == j {
                                let u = choose|u: int| 0 <= u < a.len() && #[trigger] step_has(a, cls, sets@[i as int]@, iv[j2].0, u);
                                assert(next@[u]);
                            }
                        }
                    }
                }
                j = j + 1;
            }
            let ghost row_final = row@;
            let acc = accepting_of(&cn.automaton, &sets[i]);
            let ghost trans_before = transitions@;
            let ghost acc_before = accepting@;
            transitions.push(row);
            accepting.push(acc);
            proof {
                assert forall|d: int, e: int| 0 <= d < i + 1 && 0 <= e < transitions@[d]@.len() implies {
                    let (j2, t) = #[trigger] transitions@[d]@[e];
                    &&& j2 < iv.len()
                    &&& t < sets@.len()
                    &&& forall|u: int| 0 <= u < a.len() ==> (#[trigger] sets@[t as int]@[u] <==> step_has(a, cls, sets@[d]@, iv[j2 as int].0, u))
                } by {
                    if d < i {
                        assert(transitions@[d] == trans_before[d]);
                        let (j2, t) = trans_before[d]@[e];
                        assert(sets@[t as int] == sets0[t as int]);
                        assert(sets@[d] == sets0[d]);
                    }
                }
                assert forall|d: int, j2: int| 0 <= d < i + 1 && 0 <= j2 < iv.len() && #[trigger] step_nonempty(a, cls, sets@[d]@, iv[j2].0)
                    implies exists|e: int| 0 <= e < transitions@[d]@.len() && (#[trigger] transitions@[d]@[e]).0 == j2 by {
                    if d < i {
                        assert(transitions@[d] == trans_before[d]);
                        assert(sets@[d] == sets0[d]);
                        assert(step_nonempty(a, cls, sets0[d]@, iv[j2].0));
                    } else {
                        assert(transitions@[d]@ == row_final);
                        assert(step_nonempty(a, cls, sets@[i as int]@, iv[j2].0));
                        let e = choose|e: int| 0 <= e < row_final.len() && (#[trigger] row_final[e]).0 == j2;
                        assert(transitions@[d]@[e] == row_final[e]);
                    }
                }
                assert forall|d: int, p: usize| 0 <= d < i + 1 implies (#[trigger] accepting@[d]@.contains(p) <==> set_accepts(a, sets@[d]@, p)) by {
                    if d < i {
                        assert(accepting@[d] == acc_before[d]);
                        assert(sets@[d] == sets0[d]);
                    }
                }
            }
            i = i + 1;
        }
        let r = CompiledDfa { nfa: cn, intervals, sets, transitions, accepting };
        proof {
            reveal(CompiledDfa::wf);
            assert forall|d: int| 0 <= d < r.sets@.len() implies (#[trigger] r.set_of(d)).len() == a.len() by {
                assert(r.set_of(d) == sets@[d]@);
            }
            assert forall|u: int| 0 <= u < a.len() implies (#[trigger] r.set_of(0)[u] <==> reachable(aut_eps(a), 0, u)) by {
                assert(r.set_of(0) == sets@[0]@);
            }
            assert forall|d: int, e: int| 0 <= d < r.sets@.len() && 0 <= e < r.transitions@[d]@.len() implies {
                let (j, t) = #[trigger] r.transitions@[d]@[e];
                &&& j < iv.len()
                &&& t < r.sets@.len()
                &&& forall|u: int| 0 <= u < a.len() ==> (#[trigger] r.set_of(t as int)[u] <==> step_has(a, cls, r.set_of(d), iv[j as int].0, u))
            } by {
                let (j, t) = transitions@[d]@[e];
                assert(r.set_of(t as int) == sets@[t as int]@);
                assert(r.set_of(d) == sets@[d]@);
            }
            assert forall|d: int, j: int| 0 <= d < r.sets@.len() && 0 <= j < iv.len() && #[trigger] step_nonempty(a, cls, r.set_of(d), iv[j].0)
                implies exists|e: int| 0 <= e < r.transitions@[d]@.len() && (#[trigger] r.transitions@[d]@[e]).0 == j by {
                assert(r.set_of(d) == sets@[d]@);
                assert(step_nonempty(a, cls, sets@[d]@, iv[j].0));
                let e = choose|e: int| 0 <= e < transitions@[d]@.len() && (#[trigger] transitions@[d]@[e]).0 == j;
                assert(r.transitions@[d]@[e] == transitions@[d]@[e]);
            }
            assert forall|d: int, p: usize| 0 <= d < r.sets@.len() implies (#[trigger] r.accepting@[d]@.contains(p) <==> set_accepts(a, r.set_of(d), p)) by {
                assert(r.set_of(d) == sets@[d]@);
            }
        }
        r
    }
}

/// The state that state `d` goes to on `c`: the target of its transition on the interval that
/// contains `c`; `None` where there is none.
pub open spec fn dfa_step(dfa: CompiledDfa, d: int, c: char) -> Option<int> {
    let iv = dfa.intervals@;
    let tr = dfa.transitions@[d]@;
    if exists|j: int, e: int| #![trigger iv[j], tr[e]] 0 <= j < iv.len() && iv[j].0 <= c <= iv[j].1 && 0 <= e < tr.len() && tr[e].0 == j {
        let (j, e) = choose|j: int, e: int| #![trigger iv[j], tr[e]] 0 <= j < iv.len() && iv[j].0 <= c <= iv[j].1 && 0 <= e < tr.len() && tr[e].0 == j;
        Some(tr[e].1 as int)
    } else {
        None
    }
}

/// The state the automaton is in after reading the `k` characters of `input` from `pos` on;
/// `None` once a character has no transition.
pub open spec fn dfa_state_after(dfa: CompiledDfa, input: Seq<char>, pos: int, k: nat) -> Option<int>
    decreases k,
{
    if k == 0 {
        Some(0)
    } else {
        match dfa_state_after(dfa, input, pos, (k - 1) as nat) {
            Some(d) => dfa_step(dfa, d, input[pos + k - 1]),
            None => None,
        }
    }
}

/// The automaton accepts the `k` characters from `pos` on: it reaches a state with an accepting
/// pattern.
pub open spec fn dfa_accepts_after(dfa: CompiledDfa, input: Seq<char>, pos: int, k: nat) -> bool {
    dfa_state_after(dfa, input, pos, k) matches Some(d) && dfa.accepting@[d]@.len() > 0
}

/// The state reached after reading characters stands for the set of states the compiled NFA is
/// in after them; where no state is reached, the NFA is in no state.
#[verifier::rlimit(80)]
#[verifier::spinoff_prover]
pub proof fn lemma_dfa_run(dfa: CompiledDfa, cls: Seq<CharMatcher>, input: Seq<char>, pos: int, k: nat)
    requires
        dfa.wf(cls),
        0 <= pos,
        pos + k <= input.len(),
    ensures
        dfa_state_after(dfa, input, pos, k) matches Some(d) ==> 0 <= d < dfa.sets@.len()
            && is_run_set(dfa.nfa.automaton@, cls, input, pos, k, dfa.set_of(d)),
        dfa_state_after(dfa, input, pos, k) is None ==> forall|v: int| !#[trigger] in_run(dfa.nfa.automaton@, cls, input, pos, k, v),
    decreases k,
{
    let a = dfa.nfa.automaton@;
    let iv = dfa.intervals@;
    dfa.lemma_wf(cls);
    if k == 0 {
        assert forall|u: int| 0 <= u < a.len() implies (#[trigger] dfa.set_of(0)[u] <==> in_run(a, cls, input, pos, 0, u)) by {
            assert(run_set(a, cls, input, pos, 0).contains(u) == reachable(aut_eps(a), 0, u));
        }
    } else {
        let k1 = (k - 1) as nat;
        lemma_dfa_run(dfa, cls, input, pos, k1);
        let c = input[pos + k1];
        match dfa_state_after(dfa, input, pos, k1) {
            Some(d) => {
                dfa.lemma_transitions(cls, d);
                let tr = dfa.transitions@[d]@;
                let empty = Seq::new(a.len(), |u: int| false);
                if exists|j: int, e: int| #![trigger iv[j], tr[e]] 0 <= j < iv.len() && iv[j].0 <= c <= iv[j].1 && 0 <= e < tr.len() && tr[e].0 == j {
                    let (j, e) = choose|j: int, e: int| #![trigger iv[j], tr[e]] 0 <= j < iv.len() && iv[j].0 <= c <= iv[j].1 && 0 <= e < tr.len() && tr[e].0 == j;
                    let t = tr[e].1 as int;
                    assert(dfa_state_after(dfa, input, pos, k) == Some(t));
                    assert forall|u: int| 0 <= u < a.len() implies (#[trigger] dfa.set_of(t)[u] <==> step_has(a, cls, dfa.set_of(d), c, u)) by {
                        lemma_step_on_interval(a, cls, dfa.set_of(d), iv, j, c, u);
                    }
                    dfa.lemma_set_len(cls, t);
                    lemma_run_step(a, cls, input, pos, k1, dfa.set_of(d), dfa.set_of(t));
                } else {
                    assert(dfa_state_after(dfa, input, pos, k) is None);
                    assert forall|u: int| 0 <= u < a.len() implies (#[trigger] empty[u] <==> step_has(a, cls, dfa.set_of(d), c, u)) by {
                        if exists|j: int| 0 <= j < iv.len() && (#[trigger] iv[j]).0 <= c <= iv[j].1 {
                            let j = choose|j: int| 0 <= j < iv.len() && (#[trigger] iv[j]).0 <= c <= iv[j].1;
                            lemma_step_on_interval(a, cls, dfa.set_of(d), iv, j, c, u);
                            if step_has(a, cls, dfa.set_of(d), c, u) {
                                assert(step_nonempty(a, cls, dfa.set_of(d), iv[j].0));
                                let e = choose|e: int| 0 <= e < tr.len() && (#[trigger] tr[e]).0 == j;
                            }
                        } else {
                            lemma_step_outside(a, cls, dfa.set_of(d), iv, c, u);
                        }
                    }
                    lemma_run_step(a, cls, input, pos, k1, dfa.set_of(d), empty);
                    assert forall|v: int| !#[trigger] in_run(a, cls, input, pos, k, v) by {
                        if in_run(a, cls, input, pos, k, v) {
                            lemma_run_in_range(a, cls, input, pos, k, v);
                            assert(empty[v]);
                        }
                    }
                }
            },
            None => {
                assert forall|v: int| !#[trigger] in_run(a, cls, input, pos, k, v) by {
                    lemma_run_dead(a, cls, input, pos, k1, k, v);
                }
            },
        }
    }
}

/// The deterministic automaton accepts exactly what the compiled NFA accepts: after reading the
/// `k` characters from `pos` on it is in a state with an accepting pattern exactly when the NFA
/// can be in an accepting state.
#[verifier::spinoff_prover]
pub proof fn lemma_dfa_accepts_as_nfa(dfa: CompiledDfa, cls: Seq<CharMatcher>, input: Seq<char>, pos: int, k: nat)
    requires
        dfa.wf(cls),
        0 <= pos,
        pos + k <= input.len(),
    ensures
        dfa_accepts_after(dfa, input, pos, k) <==> accepts_after(dfa.nfa.automaton@, cls, input, pos, k),
{
    let a = dfa.nfa.automaton@;
    lemma_dfa_run(dfa, cls, input, pos, k);
    match dfa_state_after(dfa, input, pos, k) {
        Some(d) => {
            dfa.lemma_accepting(cls, d);
            let acc = dfa.accepting@[d]@;
            if acc.len() > 0 {
                assert(acc.contains(acc[0]));
                assert(set_accepts(a, dfa.set_of(d), acc[0]));
                let u = choose|u: int| 0 <= u < a.len() && #[trigger] dfa.set_of(d)[u] && a[u].accept == Some(acc[0]);
                assert(in_run(a, cls, input, pos, k, u));
            }
            if accepts_after(a, cls, input, pos, k) {
                let u = choose|u: int| 0 <= u < a.len() && #[trigger] in_run(a, cls, input, pos, k, u) && a[u].accept is Some;
                let p = a[u].accept->0;
                assert(dfa.set_of(d)[u]);
                assert(set_accepts(a, dfa.set_of(d), p));
                assert(acc.contains(p));
            }
        },
        None => {
            if accepts_after(a, cls, input, pos, k) {
                let u = choose|u: int| 0 <= u < a.len() && #[trigger] in_run(a, cls, input, pos, k, u) && a[u].accept is Some;
            }
        },
    }
}

impl CompiledDfa {
    /// The number of the interval that contains `c`, found by binary search.
    fn interval_of(&self, c: char) -> (r: Option<usize>)
        requires
            intervals_sorted(self.intervals@),
        ensures
            r matches Some(j) ==> j < self.intervals@.len() && self.intervals@[j as int].0 <= c <= self.intervals@[j as int].1,
            r is None ==> forall|j: int| 0 <= j < self.intervals@.len() ==> !((#[trigger] self.intervals@[j]).0 <= c <= self.intervals@[j].1),
    {
        let ghost iv = self.intervals@;
        let mut lo: usize = 0;
        let mut hi: usize = self.intervals.len();
        while lo < hi
            invariant
                iv == self.intervals@,
                intervals_sorted(iv),
                lo <= hi <= iv.len(),
                forall|j: int| 0 <= j < lo ==> (#[trigger] iv[j]).1 < c,
                forall|j: int| hi <= j < iv.len() ==> c < (#[trigger] iv[j]).0,
            decreases hi - lo,
        {
            let mid = lo + (hi - lo) / 2;
            let (a, b) = self.intervals[mid];
            if c < a {
                proof {
                    assert forall|j: int| mid <= j < iv.len() implies c < (#[trigger] iv[j]).0 by {
                        if j > mid {
                            assert(iv[mid as int].1 < iv[j].0);
                        }
                    }
                }
                hi = mid;
            } else if b < c {
                proof {
                    assert forall|j: int| 0 <= j < mid + 1 implies (#[trigger] iv[j]).1 < c by {
                        if j < mid {
                            assert(iv[j].1 < iv[mid as int].0);
                        }
                    }
                }
                lo = mid + 1;
            } else {
                return Some(mid);
            }
        }
        None
    }

    /// The state reached from state `d` on `c`; `None` where no state of the NFA is reached.
    #[verifier::loop_isolation(false)]
    #[verifier::rlimit(50)]
    #[verifier::spinoff_prover]
    fn next_state(&self, Ghost(cls): Ghost<Seq<CharMatcher>>, d: usize, c: char) -> (r: Option<usize>)
        requires
            self.wf(cls),
            d < self.sets@.len(),
        ensures
            r matches Some(t) ==> t < self.sets@.len() && forall|u: int| 0 <= u < self.nfa.automaton@.len() ==>
                (#[trigger] self.set_of(t as int)[u] <==> step_has(self.nfa.automaton@, cls, self.set_of(d as int), c, u)),
            r is None ==> forall|u: int| !#[trigger] step_has(self.nfa.automaton@, cls, self.set_of(d as int), c, u),
    {
        let ghost a = self.nfa.automaton@;
        let ghost iv = self.intervals@;
        let ghost set = self.set_of(d as int);
        proof {
            self.lemma_wf(cls);
            self.lemma_transitions(cls, d as int);
        }
        let ghost tr = self.transitions@[d as int]@;
        assert(forall|e: int| 0 <= e < tr.len() ==> {
            let (j, t) = #[trigger] tr[e];
            &&& j < iv.len()
            &&& t < self.sets@.len()
            &&& forall|u: int| 0 <= u < a.len() ==> (#[trigger] self.set_of(t as int)[u] <==> step_has(a, cls, set, iv[j as int].0, u))
        });
        assert(forall|j: int| 0 <= j < iv.len() && #[trigger] step_nonempty(a, cls, set, iv[j].0)
            ==> exists|e: int| 0 <= e < tr.len() && (#[trigger] tr[e]).0 == j);
        assert(classes_constant_on(cls, iv) && intervals_cover(cls, iv) && intervals_sorted(iv) && aut_wf(a));
        match self.interval_of(c) {
            None => {
                proof {
                    assert forall|u: int| !#[trigger] step_has(a, cls, self.set_of(d as int), c, u) by {
                        lemma_step_outside(a, cls, self.set_of(d as int), iv, c, u);
                    }
                }
                None
            },
            Some(j) => {
                let row = &self.transitions[d];
                let mut e: usize = 0;
                while e < row.len()
                    invariant
                        row@ == tr,
                        e <= row@.len(),
                        forall|e2: int| 0 <= e2 < e ==> (#[trigger] row@[e2]).0 != j,
                    decreases row@.len() - e,
                {
                    let (j2, t) = row[e];
                    if j2 == j {
                        proof {
                            assert(tr[e as int] == (j2, t));
                            assert forall|u: int| 0 <= u < a.len() implies
                                (#[trigger] self.set_of(t as int)[u] <==> step_has(a, cls, set, c, u)) by {
                                lemma_step_on_interval(a, cls, set, iv, j as int, c, u);
                            }
                        }
                        return Some(t);
                    }
                    e = e + 1;
                }
                proof {
                    if step_nonempty(a, cls, set, iv[j as int].0) {
                        let e2 = choose|e2: int| 0 <= e2 < tr.len() && (#[trigger] tr[e2]).0 == j;
                        assert(row@[e2].0 == j);
                    }
                    assert forall|u: int| !#[trigger] step_has(a, cls, self.set_of(d as int), c, u) by {
                        lemma_step_on_interval(a, cls, self.set_of(d as int), iv, j as int, c, u);
                        if step_has(a, cls, self.set_of(d as int), c, u) {
                            let (s0, e0) = choose|s0: int, e0: int|
                                #![trigger self.set_of(d as int)[s0], a[s0].trans[e0]]
                                0 <= s0 < a.len() && self.set_of(d as int)[s0] && 0 <= e0 < a[s0].trans.len()
                                    && class_has(cls, a[s0].trans[e0].0, iv[j as int].0)
                                    && reachable(aut_eps(a), a[s0].trans[e0].1 as int, u);
                            assert(a[s0].trans[e0].1 < a.len());
                            crate::graph::lemma_reachable_in_range(aut_eps(a), a[s0].trans[e0].1 as int, u);
                            crate::compiled_nfa::lemma_eps_wf(a);
                            assert(step_nonempty(a, cls, self.set_of(d as int), iv[j as int].0));
                        }
                    }
                }
                None
            },
        }
    }

    /// The lowest number of a pattern that matches the `k` characters from `pos` on, given the
    /// state reached after them.
    #[verifier::rlimit(50)]
    #[verifier::spinoff_prover]
    fn best_accepted(
        &self,
        reg: &CharacterClassRegistry,
        d: usize,
        input: &Vec<char>,
        pos: usize,
        end: usize,
        Ghost(k): Ghost<nat>,
    ) -> (r: Option<usize>)
        requires
            self.wf(reg.class_matchers()),
            d < self.sets@.len(),
            is_run_set(self.nfa.automaton@, reg.class_matchers(), input@, pos as int, k, self.set_of(d as int)),
            1 <= k,
            end == pos + k,
            end <= input@.len(),
        ensures
            r is None ==> forall|p: int| !#[trigger] match_valid(self.nfa.automaton@, self.nfa.lookahead_views(), reg.class_matchers(), input@, pos as int, k, p),
            r matches Some(p) ==> match_valid(self.nfa.automaton@, self.nfa.lookahead_views(), reg.class_matchers(), input@, pos as int, k, p as int)
                && forall|p2: int| #[trigger] match_valid(self.nfa.automaton@, self.nfa.lookahead_views(), reg.class_matchers(), input@, pos as int, k, p2) ==> p <= p2,
    {
        let ghost a = self.nfa.automaton@;
        let ghost las = self.nfa.lookahead_views();
        let ghost cls = reg.class_matchers();
        let ghost set = self.set_of(d as int);
        proof {
            self.lemma_accepting(cls, d as int);
        }
        let ghost accs = self.accepting@[d as int]@;
        assert(forall|p: usize| #[trigger] accs.contains(p) <==> set_accepts(a, set, p));
        assert(self.nfa.wf());
        let acc = &self.accepting[d];
        let mut best: Option<usize> = None;
        let mut x: usize = 0;
        while x < acc.len()
            invariant
                acc@ == accs,
                forall|p: usize| #[trigger] accs.contains(p) <==> set_accepts(a, set, p),
                self.nfa.wf(),
                a == self.nfa.automaton@,
                las == self.nfa.lookahead_views(),
                cls == reg.class_matchers(),
                is_run_set(a, cls, input@, pos as int, k, set),
                1 <= k,
                end == pos + k,
                end <= input@.len(),
                x <= acc@.len(),
                best matches Some(b) ==> match_valid(a, las, cls, input@, pos as int, k, b as int),
                forall|x2: int| 0 <= x2 < x && lookahead_ok(las[acc@[x2] as int], cls, input@, end as int) && #[trigger] acc@[x2] < las.len()
                    ==> (best matches Some(b) && b <= acc@[x2]),
            decreases acc@.len() - x,
        {
            let p = acc[x];
            proof {
                assert(acc@.contains(p));
                assert(set_accepts(a, set, p));
                let u = choose|u: int| 0 <= u < a.len() && #[trigger] set[u] && a[u].accept == Some(p);
                assert(p < self.nfa.lookaheads@.len());
            }
            let improve = match best {
                None => true,
                Some(b) => p < b,
            };
            if improve && self.nfa.lookahead_satisfied(reg, p, input, end) {
                proof {
                    let u = choose|u: int| 0 <= u < a.len() && #[trigger] set[u] && a[u].accept == Some(p);
                    assert(in_run(a, cls, input@, pos as int, k, u));
                    assert(match_valid(a, las, cls, input@, pos as int, k, p as int));
                }
                best = Some(p);
            }
            x = x + 1;
        }
        let nl = self.nfa.lookaheads.len();
        proof {
            assert forall|p2: int| #[trigger] match_valid(a, las, cls, input@, pos as int, k, p2) implies (best matches Some(b) && b <= p2) by {
                let w = choose|w: int| 0 <= w < a.len() && #[trigger] in_run(a, cls, input@, pos as int, k, w) && a[w].accept == Some(p2 as usize);
                assert(set[w]);
                assert(set_accepts(a, set, p2 as usize));
                assert(acc@.contains(p2 as usize));
                assert(p2 < nl);
                assert(p2 as usize as int == p2);
                let x2 = choose|x2: int| 0 <= x2 < acc@.len() && acc@[x2] == p2 as usize;
                assert(acc@[x2] as int == p2);
                assert(lookahead_ok(las[acc@[x2] as int], cls, input@, end as int));
                assert(acc@[x2] < las.len());
            }
        }
        best
    }

    /// The longest match from position `pos` on, as the number of its pattern and the number
    /// of its characters; among matches of equal length the pattern with the lowest number wins.
    /// This is the match that the compiled NFA finds: the automaton is always in the state that
    /// stands for the set of states the NFA is in.
    #[verifier::rlimit(50)]
    #[verifier::spinoff_prover]
    pub fn find_from(&self, reg: &CharacterClassRegistry, input: &Vec<char>, pos: usize) -> (r: Option<(usize, usize)>)
        requires
            self.wf(reg.class_matchers()),
            pos <= input@.len(),
        ensures
            is_longest_match(self.nfa.automaton@, self.nfa.lookahead_views(), reg.class_matchers(), input@, pos as int, r),
    {
        let ghost a = self.nfa.automaton@;
        let ghost las = self.nfa.lookahead_views();
        let ghost cls = reg.class_matchers();
        let mut d: usize = 0;
        proof {
            self.lemma_wf(cls);
            assert forall|u: int| 0 <= u < a.len() implies (#[trigger] self.set_of(0)[u] <==> in_run(a, cls, input@, pos as int, 0, u)) by {
                assert(run_set(a, cls, input@, pos as int, 0).contains(u) == reachable(aut_eps(a), 0, u));
            }
        }
        let mut k: usize = 0;
        let mut alive = true;
        let mut best: Option<(usize, usize)> = None;
        while k < input.len() - pos && alive
            invariant
                a == self.nfa.automaton@,
                las == self.nfa.lookahead_views(),
                cls == reg.class_matchers(),
                self.wf(cls),
                aut_wf(a),
                d < self.sets@.len(),
                pos + k <= input@.len(),
                alive ==> is_run_set(a, cls, input@, pos as int, k as nat, self.set_of(d as int)),
                !alive ==> forall|v: int| !#[trigger] in_run(a, cls, input@, pos as int, k as nat, v),
                best is None ==> forall|k2: nat, p: int| k2 <= k ==> !#[trigger] match_valid(a, las, cls, input@, pos as int, k2, p),
                best matches Some((p, k0)) ==> {
                    &&& match_valid(a, las, cls, input@, pos as int, k0 as nat, p as int)
                    &&& k0 <= k
                    &&& forall|k2: nat, p2: int| k2 <= k && #[trigger] match_valid(a, las, cls, input@, pos as int, k2, p2) ==> k2 < k0 || (k2 == k0 && p <= p2)
                },
            decreases input@.len() - pos - k,
        {
            let c = input[pos + k];
            proof {
                self.lemma_set_len(cls, d as int);
            }
            match self.next_state(Ghost(cls), d, c) {
                Some(t) => {
                    proof {
                        self.lemma_set_len(cls, t as int);
                        lemma_run_step(a, cls, input@, pos as int, k as nat, self.set_of(d as int), self.set_of(t as int));
                    }
                    k = k + 1;
                    d = t;
                    match self.best_accepted(reg, d, input, pos, pos + k, Ghost(k as nat)) {
                        Some(p) => {
                            best = Some((p, k));
                        },
                        None => {},
                    }
                },
                None => {
                    let ghost empty = Seq::new(a.len(), |u: int| false);
                    proof {
                        lemma_run_step(a, cls, input@, pos as int, k as nat, self.set_of(d as int), empty);
                    }
                    k = k + 1;
                    alive = false;
                    proof {
                        assert forall|v: int| !#[trigger] in_run(a, cls, input@, pos as int, k as nat, v) by {
                            if in_run(a, cls, input@, pos as int, k as nat, v) {
                                lemma_run_in_range(a, cls, input@, pos as int, k as nat, v);
                                assert(empty[v]);
                            }
                        }
                        assert forall|p: int| !#[trigger] match_valid(a, las, cls, input@, pos as int, k as nat, p) by {
                            if match_valid(a, las, cls, input@, pos as int, k as nat, p) {
                                let w = choose|w: int| 0 <= w < a.len() && #[trigger] in_run(a, cls, input@, pos as int, k as nat, w) && a[w].accept == Some(p as usize);
                            }
                        }
                    }
                },
            }
        }
        proof {
            assert forall|k2: nat, p2: int| k2 > k implies !#[trigger] match_valid(a, las, cls, input@, pos as int, k2, p2) by {
                if match_valid(a, las, cls, input@, pos as int, k2, p2) {
                    assert(!alive);
                    let w = choose|w: int| 0 <= w < a.len() && #[trigger] in_run(a, cls, input@, pos as int, k2, w) && a[w].accept == Some(p2 as usize);
                    lemma_run_dead(a, cls, input@, pos as int, k as nat, k2, w);
                }
            }
        }
        best
    }

    /// The longest match at the character position `pos` as a match of the token type of its
    /// pattern and the byte span of its characters (see [Self::find_from]); `offsets` are the
    /// byte offsets of the characters.
    pub fn find_match(&self, reg: &CharacterClassRegistry, input: &Vec<char>, offsets: &Vec<usize>, pos: usize) -> (r: Option<Match>)
        requires
            self.wf(reg.class_matchers()),
            pos <= input@.len(),
            byte_offsets_of(input@, offsets@),
        ensures
            r is None ==> is_longest_match(self.nfa.automaton@, self.nfa.lookahead_views(), reg.class_matchers(), input@, pos as int, None),
            r matches Some(m) ==> exists|p: usize, k: usize|
                #[trigger] is_longest_match(self.nfa.automaton@, self.nfa.lookahead_views(), reg.class_matchers(), input@, pos as int, Some((p, k)))
                    && p < self.nfa.terminal_ids@.len()
                    && m.spec_token_type() == self.nfa.terminal_ids@[p as int]
                    && m.spec_span() == (Span { start: offsets@[pos as int], end: offsets@[pos + k] }),
    {
        proof {
            self.lemma_wf(reg.class_matchers());
        }
        match self.find_from(reg, input, pos) {
            None => None,
            Some((p, k)) => {
                assert(match_valid(self.nfa.automaton@, self.nfa.lookahead_views(), reg.class_matchers(), input@, pos as int, k as nat, p as int));
                let n = input.len();
                assert(pos + k <= n);
                proof {
                    lemma_byte_offset_mono(input@, pos as int, pos + k);
                    lemma_byte_offset_mono(input@, pos + k, input@.len() as int);
                }
                Some(Match::new(self.nfa.terminal_ids[p], Span::new(offsets[pos], offsets[pos + k])))
            },
        }
    }
}

impl CompiledDfa {
    /// Builds the deterministic automaton of a multi-pattern NFA whose character classes are
    /// registered: the NFA is compiled with the lookaheads of its patterns (see
    /// [CompiledNfa::from_multi_pattern_nfa]), the registry's elementary intervals are computed,
    /// and the subset construction follows. The patterns keep their order, which is their
    /// priority. A lookahead that `regex_syntax` cannot parse gives its parse error.
    pub fn create_from_multi_pattern_nfa(
        mp: &MultiPatternNfa,
        character_class_registry: &mut CharacterClassRegistry,
    ) -> (r: Result<CompiledDfa, ScnrError>)
        requires
            old(character_class_registry).wf(),
            mp.wf(old(character_class_registry).keys().len()),
        ensures
            final(character_class_registry).wf(),
            keys_extend(old(character_class_registry).keys(), final(character_class_registry).keys()),
            registry_grew(*old(character_class_registry), *final(character_class_registry)),
            r matches Ok(dfa) ==> {
                &&& dfa.wf(final(character_class_registry).class_matchers())
                &&& automaton_of(dfa.nfa.automaton@, *mp)
                &&& dfa.nfa.terminal_ids@.len() == mp.patterns@.len()
                &&& dfa.nfa.patterns@.len() == mp.patterns@.len()
                &&& dfa.nfa.lookaheads@.len() == mp.patterns@.len()
                &&& forall|p: int| 0 <= p < mp.patterns@.len() ==> #[trigger] dfa.nfa.terminal_ids@[p] == mp.patterns@[p].spec_token_type()
                    && dfa.nfa.patterns@[p]@ == mp.patterns@[p].spec_pattern()
                    && compiled_same_polarity(dfa.nfa.lookaheads@[p], mp.patterns@[p].spec_lookahead())
            },
            (forall|p: int| 0 <= p < mp.patterns@.len() ==> (#[trigger] mp.patterns@[p].spec_lookahead()) is None) ==> r is Ok,
    {
        let cn = match CompiledNfa::from_multi_pattern_nfa(mp, character_class_registry) {
            Ok(cn) => cn,
            Err(e) => return Err(e),
        };
        let ghost reg1 = *character_class_registry;
        let dfa = Self::create_from_compiled(cn, character_class_registry);
        Ok(dfa)
    }

    /// Builds the deterministic automaton of the patterns of a scanner mode: their compiled NFA
    /// (see [CompiledNfa::try_from_patterns]) made deterministic (see
    /// [Self::create_from_compiled]). The errors are those of the compiled NFA.
    pub fn try_from_patterns(
        patterns: &[Pattern],
        character_class_registry: &mut CharacterClassRegistry,
    ) -> (r: Result<CompiledDfa, ScnrError>)
        requires
            old(character_class_registry).wf(),
        ensures
            final(character_class_registry).wf(),
            keys_extend(old(character_class_registry).keys(), final(character_class_registry).keys()),
            registry_grew(*old(character_class_registry), *final(character_class_registry)),
            r matches Ok(dfa) ==> dfa.wf(final(character_class_registry).class_matchers())
                && compiled_from(dfa.nfa, patterns@)
                && patterns_from_trees(dfa.nfa, final(character_class_registry).keys(), final(character_class_registry).class_matchers()),
            r is Ok ==> forall|k: int| 0 <= k < patterns@.len() ==> pattern_parses(#[trigger] patterns@[k]),
            patterns@.len() == 0 ==> r is Ok,
    {
        let cn = match CompiledNfa::try_from_patterns(patterns, character_class_registry) {
            Ok(cn) => cn,
            Err(e) => return Err(e),
        };
        let ghost reg1 = *character_class_registry;
        let dfa = Self::create_from_compiled(cn, character_class_registry);
        Ok(dfa)
    }
}

impl CompiledDfa {
    /// Builds the deterministic automaton of the NFA of one pattern whose character classes are
    /// registered: the NFA becomes the only pattern of a multi-pattern NFA (see
    /// [Self::create_from_multi_pattern_nfa]). An NFA with more states than can be numbered, or
    /// a lookahead that `regex_syntax` cannot parse, gives an error.
    pub fn create_from_nfa(
        nfa: Nfa,
        character_class_registry: &mut CharacterClassRegistry,
    ) -> (r: Result<CompiledDfa, ScnrError>)
        requires
            old(character_class_registry).wf(),
            built_nfa(nfa@, old(character_class_registry).keys().len()),
        ensures
            final(character_class_registry).wf(),
            keys_extend(old(character_class_registry).keys(), final(character_class_registry).keys()),
            registry_grew(*old(character_class_registry), *final(character_class_registry)),
            r matches Ok(dfa) ==> {
                &&& dfa.wf(final(character_class_registry).class_matchers())
                &&& exists|mp: MultiPatternNfa| #[trigger] automaton_of(dfa.nfa.automaton@, mp) && mp.nfas@.len() == 1
                    && pattern_nfa(mp, 0) == nfa@
                &&& dfa.nfa.terminal_ids@ == seq![nfa.pattern.spec_token_type()]
                &&& dfa.nfa.patterns@.len() == 1 && dfa.nfa.patterns@[0]@ == nfa.pattern.spec_pattern()
                &&& compiled_same_polarity(dfa.nfa.lookaheads@[0], nfa.pattern.spec_lookahead())
            },
            nfa.pattern.spec_lookahead() is None && nfa@.states.len() < usize::MAX ==> r is Ok,
    {
        let ghost m = character_class_registry.keys().len();
        let ghost nv = nfa@;
        proof {
            character_class_registry.lemma_views();
            crate::character_class::lemma_registry_extends(character_class_registry.keys(), character_class_registry.class_matchers(),
                character_class_registry.keys(), character_class_registry.class_matchers(),
                character_class_registry.keys(), character_class_registry.class_matchers());
        }
        let pattern = nfa.pattern.duplicate();
        let ghost pat = pattern;
        let mut mp = MultiPatternNfa::new();
        proof {
            crate::multi_pattern_nfa::lemma_wf_mono(mp, 0, m);
        }
        match mp.add_nfa(nfa, pattern, Ghost(m)) {
            Ok(()) => {},
            Err(e) => return Err(e),
        }
        assert(mp.patterns@ =~= seq![pat]);
        let r = Self::create_from_multi_pattern_nfa(&mp, character_class_registry);
        match r {
            Ok(dfa) => {
                assert(dfa.nfa.terminal_ids@[0] == mp.patterns@[0].spec_token_type());
                assert(dfa.nfa.terminal_ids@ =~= seq![pat.spec_token_type()]);
                assert(automaton_of(dfa.nfa.automaton@, mp) && mp.nfas@.len() == 1 && pattern_nfa(mp, 0) == nv);
                assert(dfa.nfa.patterns@.len() == 1);
                assert(dfa.nfa.patterns@[0]@ == nfa.pattern.spec_pattern());
                assert(compiled_same_polarity(dfa.nfa.lookaheads@[0], nfa.pattern.spec_lookahead()));
                Ok(dfa)
            },
            Err(e) => Err(e),
        }
    }
}

} // verus!
