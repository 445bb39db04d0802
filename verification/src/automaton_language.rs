//! The runs of a compiled automaton as runs of an NFA, and the words each pattern's NFA accepts
//! as the matches of the automaton.
use vstd::prelude::*;
use crate::char_matcher::CharMatcher;
use crate::character_class::{registry_extends, KeyView};
use crate::compiled_nfa::{
    accepts_after, aut_eps, automaton_from_trees, automaton_of, in_run, lemma_mp_bounds, lookahead_ok, match_valid,
    matches_nonempty, run_set, state_of_nfa, step_from, AutomatonStateView, LookaheadView,
};
use crate::graph::{edge, lemma_path_extend, path_in, reachable};
use crate::multi_pattern_nfa::{nfa_at, nfa_offset, nfas_view, pattern_from_tree, MultiPatternNfa};
use crate::nfa::{nfa_wf, shift_states, state_targets_below, EpsilonTransition, NfaStateView, NfaView};
use crate::nfa_language::{
    is_run, lemma_empty_run, lemma_reads_concat, lemma_reads_step, lemma_word_of_append,
    lemma_word_of_none, nfa_accepts, nfa_reads, nfa_step, word_of,
};
use crate::regex_tree::{tree_accepts, tree_refusal, RegexTree};
use crate::tree_language::reads_as_tree;

verus! {

/// The states of an automaton as NFA states: the same transitions at the same numbers.
pub open spec fn aut_states(a: Seq<AutomatonStateView>) -> Seq<NfaStateView> {
    Seq::new(a.len(), |i: int| NfaStateView { id: i as usize, eps: a[i].eps, trans: a[i].trans })
}

/// A character step reads that character.
pub proof fn lemma_word_of_char(c: char)
    ensures
        word_of(seq![Some(c)]) == seq![c],
{
    let l = seq![Some(c)];
    assert(l.drop_last() =~= Seq::<Option<char>>::empty());
    assert(word_of(Seq::<Option<char>>::empty()) =~= Seq::<char>::empty());
    assert(word_of(l) =~= Seq::<char>::empty() + seq![c]);
}

/// A path of epsilon transitions is a run that reads nothing.
proof fn lemma_path_reads(a: Seq<AutomatonStateView>, cls: Seq<CharMatcher>, s: int, t: int, m: nat)
    requires
        path_in(aut_eps(a), s, t, m),
    ensures
        nfa_reads(aut_states(a), cls, s, Seq::empty(), t),
    decreases m,
{
    let st = aut_states(a);
    if m == 0 {
        lemma_empty_run(st, cls, s);
    } else {
        let u = choose|u: int| path_in(aut_eps(a), s, u, (m - 1) as nat) && #[trigger] edge(aut_eps(a), u, t);
        lemma_path_reads(a, cls, s, u, (m - 1) as nat);
        let j = choose|j: int| 0 <= j < aut_eps(a)[u].len() && aut_eps(a)[u][j] as int == t;
        assert(st[u].eps[j] == t);
        lemma_reads_step(st, cls, u, t, None);
        lemma_word_of_none();
        lemma_reads_concat(st, cls, s, Seq::empty(), u, Seq::empty(), t);
        assert(Seq::<char>::empty() + Seq::<char>::empty() =~= Seq::<char>::empty());
    }
}

/// The states the automaton can be in are closed under epsilon transitions.
proof fn lemma_in_run_eps(a: Seq<AutomatonStateView>, cls: Seq<CharMatcher>, input: Seq<char>, pos: int, k: nat, u: int, t: int)
    requires
        in_run(a, cls, input, pos, k, u),
        edge(aut_eps(a), u, t),
    ensures
        in_run(a, cls, input, pos, k, t),
{
    let adj = aut_eps(a);
    if k == 0 {
        let m = choose|m: nat| path_in(adj, 0, u, m);
        lemma_path_extend(adj, 0, u, t, m);
    } else {
        let prev = run_set(a, cls, input, pos, (k - 1) as nat);
        let c = input[pos + k - 1];
        assert(step_from(a, cls, prev, c, u));
        let (s, j) = choose|s: int, j: int|
            #![trigger prev.contains(s), a[s].trans[j]]
            prev.contains(s) && 0 <= s < a.len() && 0 <= j < a[s].trans.len()
                && crate::compiled_nfa::class_has(cls, a[s].trans[j].0, c)
                && reachable(adj, a[s].trans[j].1 as int, u);
        let m = choose|m: nat| path_in(adj, a[s].trans[j].1 as int, u, m);
        lemma_path_extend(adj, a[s].trans[j].1 as int, u, t, m);
        assert(step_from(a, cls, prev, c, t));
    }
}

/// A run of the automaton from state 0 reading characters of the input ends in a state the
/// automaton can be in after them.
proof fn lemma_reads_in_run(
    a: Seq<AutomatonStateView>,
    cls: Seq<CharMatcher>,
    input: Seq<char>,
    pos: int,
    k: nat,
    path: Seq<int>,
    labels: Seq<Option<char>>,
)
    requires
        0 <= pos,
        pos + k <= input.len(),
        is_run(aut_states(a), cls, path, labels),
        path[0] == 0,
        word_of(labels) == input.subrange(pos, pos + k),
    ensures
        in_run(a, cls, input, pos, k, path[path.len() - 1]),
    decreases labels.len(),
{
    let st = aut_states(a);
    let adj = aut_eps(a);
    if labels.len() == 0 {
        assert(path.len() == 1);
        assert(word_of(labels) =~= Seq::<char>::empty());
        assert(input.subrange(pos, pos + k).len() == k);
        assert(k == 0);
        assert(path_in(adj, 0, 0, 0));
    } else {
        let n = labels.len() - 1;
        let p2 = path.drop_last();
        let l2 = labels.drop_last();
        assert forall|i: int| 0 <= i < l2.len() implies nfa_step(st, cls, p2[i], p2[i + 1], #[trigger] l2[i]) by {
            assert(nfa_step(st, cls, path[i], path[i + 1], labels[i]));
        }
        assert(is_run(st, cls, p2, l2));
        assert(nfa_step(st, cls, path[n], path[n + 1], labels[n]));
        let s = path[n];
        let t = path[n + 1];
        match labels[n] {
            None => {
                assert(word_of(labels) =~= word_of(l2));
                lemma_reads_in_run(a, cls, input, pos, k, p2, l2);
                let j = choose|j: int| 0 <= j < st[s].eps.len() && #[trigger] st[s].eps[j] == t;
                assert(adj[s][j] == t);
                assert(edge(adj, s, t));
                lemma_in_run_eps(a, cls, input, pos, k, s, t);
            },
            Some(c) => {
                assert(word_of(labels) =~= word_of(l2) + seq![c]);
                assert(k >= 1);
                let k1 = (k - 1) as nat;
                let wl = word_of(labels);
                assert(wl.len() == k);
                assert(word_of(l2).len() == k1);
                assert(wl[k1 as int] == c);
                assert(input.subrange(pos, pos + k)[k1 as int] == input[pos + k - 1]);
                assert(c == input[pos + k - 1]);
                assert(word_of(l2) =~= input.subrange(pos, pos + k1));
                lemma_reads_in_run(a, cls, input, pos, k1, p2, l2);
                let j = choose|j: int|
                    0 <= j < st[s].trans.len() && #[trigger] st[s].trans[j].1 == t
                        && st[s].trans[j].0 < cls.len() && crate::char_matcher::matcher_has(cls[st[s].trans[j].0 as int], c);
                let prev = run_set(a, cls, input, pos, k1);
                assert(prev.contains(s));
                assert(a[s].trans[j].1 == t);
                assert(path_in(adj, t, t, 0));
                assert(step_from(a, cls, prev, c, t));
            },
        }
    }
}

/// A state the automaton can be in after characters of the input is reached from state 0 by a
/// run reading them.
proof fn lemma_in_run_reads(a: Seq<AutomatonStateView>, cls: Seq<CharMatcher>, input: Seq<char>, pos: int, k: nat, u: int)
    requires
        0 <= pos,
        pos + k <= input.len(),
        in_run(a, cls, input, pos, k, u),
    ensures
        nfa_reads(aut_states(a), cls, 0, input.subrange(pos, pos + k), u),
    decreases k,
{
    let st = aut_states(a);
    let adj = aut_eps(a);
    if k == 0 {
        let m = choose|m: nat| path_in(adj, 0, u, m);
        lemma_path_reads(a, cls, 0, u, m);
        assert(input.subrange(pos, pos) =~= Seq::<char>::empty());
    } else {
        let k1 = (k - 1) as nat;
        let prev = run_set(a, cls, input, pos, k1);
        let c = input[pos + k - 1];
        assert(step_from(a, cls, prev, c, u));
        let (s, j) = choose|s: int, j: int|
            #![trigger prev.contains(s), a[s].trans[j]]
            prev.contains(s) && 0 <= s < a.len() && 0 <= j < a[s].trans.len()
                && crate::compiled_nfa::class_has(cls, a[s].trans[j].0, c)
                && reachable(adj, a[s].trans[j].1 as int, u);
        let t = a[s].trans[j].1 as int;
        lemma_in_run_reads(a, cls, input, pos, k1, s);
        assert(st[s].trans[j] == a[s].trans[j]);
        assert(nfa_step(st, cls, s, t, Some(c)));
        lemma_reads_step(st, cls, s, t, Some(c));
        lemma_word_of_char(c);
        let m = choose|m: nat| path_in(adj, t, u, m);
        lemma_path_reads(a, cls, t, u, m);
        lemma_reads_concat(st, cls, s, seq![c], t, Seq::empty(), u);
        assert(seq![c] + Seq::<char>::empty() =~= seq![c]);
        lemma_reads_concat(st, cls, 0, input.subrange(pos, pos + k1), s, seq![c], u);
        assert(input.subrange(pos, pos + k1) + seq![c] =~= input.subrange(pos, pos + k));
    }
}

/// The automaton can be in state `u` after the `k` characters of the input from `pos` on exactly
/// when a run of its transitions leads from state 0 to `u` reading them.
pub proof fn lemma_in_run_language(a: Seq<AutomatonStateView>, cls: Seq<CharMatcher>, input: Seq<char>, pos: int, k: nat, u: int)
    requires
        0 <= pos,
        pos + k <= input.len(),
    ensures
        in_run(a, cls, input, pos, k, u) <==> nfa_reads(aut_states(a), cls, 0, input.subrange(pos, pos + k), u),
{
    if in_run(a, cls, input, pos, k, u) {
        lemma_in_run_reads(a, cls, input, pos, k, u);
    }
    if nfa_reads(aut_states(a), cls, 0, input.subrange(pos, pos + k), u) {
        let (path, labels) = choose|path: Seq<int>, labels: Seq<Option<char>>|
            #[trigger] is_run(aut_states(a), cls, path, labels) && path[0] == 0 && path[path.len() - 1] == u
                && word_of(labels) == input.subrange(pos, pos + k);
        lemma_reads_in_run(a, cls, input, pos, k, path, labels);
    }
}

/// The state with every state number lowered by `off`.
pub open spec fn unshift_state(s: NfaStateView, off: int) -> NfaStateView {
    NfaStateView {
        id: (s.id - off) as usize,
        eps: s.eps.map_values(|x: usize| (x - off) as usize),
        trans: s.trans.map_values(|t: (usize, usize)| (t.0, (t.1 - off) as usize)),
    }
}

/// The NFA with its state numbers lowered by `off`.
pub open spec fn unshifted(v: NfaView, off: int) -> NfaView {
    NfaView {
        states: v.states.map_values(|s: NfaStateView| unshift_state(s, off)),
        start: (v.start - off) as usize,
        end: (v.end - off) as usize,
    }
}

/// Lowering the state numbers of an NFA raised by `off` gives the NFA back.
pub proof fn lemma_unshift_shift(v: NfaView, off: usize)
    requires
        nfa_wf(v),
        v.states.len() + off <= usize::MAX,
    ensures
        unshifted(
            NfaView { states: shift_states(v.states, off), start: (v.start + off) as usize, end: (v.end + off) as usize },
            off as int,
        ) == v,
{
    let sv = NfaView { states: shift_states(v.states, off), start: (v.start + off) as usize, end: (v.end + off) as usize };
    let u = unshifted(sv, off as int);
    let n = v.states.len() as int;
    assert forall|i: int| 0 <= i < n implies #[trigger] u.states[i] == v.states[i] by {
        let st = v.states[i];
        assert(state_targets_below(st, n));
        assert(u.states[i].eps =~= st.eps);
        assert(u.states[i].trans =~= st.trans);
    }
    assert(u.states =~= v.states);
}

/// The NFA of pattern `k` of a multi-pattern NFA, with its states numbered from 0 again.
pub open spec fn pattern_nfa(mp: MultiPatternNfa, k: int) -> NfaView {
    let ns = nfas_view(mp.nfas@);
    unshifted(ns[k], nfa_offset(ns, k))
}

/// The states of the NFA `v` of pattern `q`, numbered from `o` on, are states of the automaton:
/// the same transitions, accepting with the number `q` in the end state of `v`.
pub open spec fn block_at(a: Seq<AutomatonStateView>, v: NfaView, o: int, q: int) -> bool {
    &&& nfa_at(v, o)
    &&& 1 <= o
    &&& o + v.states.len() <= a.len()
    &&& forall|i: int| 0 <= i < v.states.len() ==> state_of_nfa(a[o + i], #[trigger] v.states[i], q, v.end)
}

/// The automaton of a multi-pattern NFA holds the states of each NFA at its offset, and state 0
/// leads to its start state.
proof fn lemma_blocks(a: Seq<AutomatonStateView>, mp: MultiPatternNfa, m: nat, q: int)
    requires
        automaton_of(a, mp),
        mp.wf(m),
        0 <= q < mp.nfas@.len(),
    ensures
        block_at(a, nfas_view(mp.nfas@)[q], nfa_offset(nfas_view(mp.nfas@), q), q),
        q < a[0].eps.len(),
        a[0].eps[q] == nfas_view(mp.nfas@)[q].start,
{
    let ns = nfas_view(mp.nfas@);
    let o = nfa_offset(ns, q);
    lemma_mp_bounds(mp, m);
    assert(nfa_at(ns[q], o));
    assert forall|i: int| 0 <= i < ns[q].states.len() implies state_of_nfa(a[o + i], #[trigger] ns[q].states[i], q, ns[q].end) by {
        assert(state_of_nfa(a[nfa_offset(ns, q) + i], ns[q].states[i], q, ns[q].end));
    }
    assert(a[0].eps[q] == mp.start_transitions@[q].target_state);
}

/// The states of an NFA in the automaton lead to states of the same NFA only, move as the NFA
/// does, and accept with the number of the NFA in its end state only.
proof fn lemma_block_step(a: Seq<AutomatonStateView>, v: NfaView, o: int, q: int, cls: Seq<CharMatcher>, x: int, y: int, c: Option<char>)
    requires
        block_at(a, v, o, q),
        o <= x < o + v.states.len(),
    ensures
        nfa_step(aut_states(a), cls, x, y, c) ==> o <= y < o + v.states.len()
            && nfa_step(unshifted(v, o).states, cls, x - o, y - o, c),
        nfa_step(unshifted(v, o).states, cls, x - o, y - o, c) ==> nfa_step(aut_states(a), cls, x, y, c),
        a[x].accept == (if x == v.end { Some(q as usize) } else { None }),
{
    let len = v.states.len() as int;
    let i = x - o;
    assert(state_of_nfa(a[o + i], v.states[i], q, v.end));
    let st = aut_states(a);
    let w = unshifted(v, o);
    assert(st[x].eps == v.states[i].eps);
    assert(st[x].trans == v.states[i].trans);
    assert(w.states[i] == unshift_state(v.states[i], o));
    if nfa_step(st, cls, x, y, c) {
        match c {
            None => {
                let j = choose|j: int| 0 <= j < st[x].eps.len() && #[trigger] st[x].eps[j] == y;
                assert(o <= v.states[i].eps[j] < o + len);
                assert(w.states[i].eps[j] == y - o);
            },
            Some(ch) => {
                let j = choose|j: int|
                    0 <= j < st[x].trans.len() && #[trigger] st[x].trans[j].1 == y
                        && st[x].trans[j].0 < cls.len() && crate::char_matcher::matcher_has(cls[st[x].trans[j].0 as int], ch);
                assert(o <= v.states[i].trans[j].1 < o + len);
                assert(w.states[i].trans[j] == (st[x].trans[j].0, (y - o) as usize));
                assert(w.states[i].trans[j].1 == y - o);
            },
        }
    }
    if nfa_step(w.states, cls, i, y - o, c) {
        match c {
            None => {
                let j = choose|j: int| 0 <= j < w.states[i].eps.len() && #[trigger] w.states[i].eps[j] == y - o;
                assert(o <= v.states[i].eps[j] < o + len);
                assert(st[x].eps[j] == y);
            },
            Some(ch) => {
                let j = choose|j: int|
                    0 <= j < w.states[i].trans.len() && #[trigger] w.states[i].trans[j].1 == y - o
                        && w.states[i].trans[j].0 < cls.len() && crate::char_matcher::matcher_has(cls[w.states[i].trans[j].0 as int], ch);
                assert(o <= v.states[i].trans[j].1 < o + len);
                assert(st[x].trans[j].1 == y);
            },
        }
    }
    assert(v.states[i].id == x);
}

/// A run of the automaton that has entered the states of an NFA stays in them.
proof fn lemma_block_stays(
    a: Seq<AutomatonStateView>,
    v: NfaView,
    o: int,
    q: int,
    cls: Seq<CharMatcher>,
    path: Seq<int>,
    labels: Seq<Option<char>>,
    i: int,
)
    requires
        block_at(a, v, o, q),
        is_run(aut_states(a), cls, path, labels),
        1 <= i < path.len(),
        o <= path[1] < o + v.states.len(),
    ensures
        o <= path[i] < o + v.states.len(),
    decreases i,
{
    if i > 1 {
        lemma_block_stays(a, v, o, q, cls, path, labels, i - 1);
        assert(nfa_step(aut_states(a), cls, path[i - 1], path[i], labels[i - 1]));
        lemma_block_step(a, v, o, q, cls, path[i - 1], path[i], labels[i - 1]);
    }
}

/// A run that steps from state 0 to the start state of the NFA of pattern `q` and ends in an
/// accepting state of pattern `p` is one of pattern `q = p`, and the rest of it is a run of the
/// NFA.
proof fn lemma_block_run(
    a: Seq<AutomatonStateView>,
    v: NfaView,
    o: int,
    q: int,
    cls: Seq<CharMatcher>,
    path: Seq<int>,
    labels: Seq<Option<char>>,
    w: Seq<char>,
    p: int,
)
    requires
        block_at(a, v, o, q),
        0 <= q <= usize::MAX,
        0 <= p <= usize::MAX,
        is_run(aut_states(a), cls, path, labels),
        labels.len() > 0,
        labels[0] is None,
        path[1] == v.start,
        a[path[path.len() - 1]].accept == Some(p as usize),
        word_of(labels) == w,
    ensures
        q == p,
        nfa_accepts(unshifted(v, o), cls, w),
{
    let st = aut_states(a);
    let u = path[path.len() - 1];
    assert(nfa_at(v, o));
    lemma_block_stays(a, v, o, q, cls, path, labels, path.len() - 1);
    lemma_block_step(a, v, o, q, cls, u, u, None);
    assert(q == p);
    let vu = unshifted(v, o);
    let pv = path.subrange(1, path.len() as int).map_values(|x: int| x - o);
    let lv = labels.subrange(1, labels.len() as int);
    assert forall|i: int| 0 <= i < lv.len() implies nfa_step(vu.states, cls, pv[i], pv[i + 1], #[trigger] lv[i]) by {
        assert(nfa_step(st, cls, path[i + 1], path[i + 2], labels[i + 1]));
        lemma_block_stays(a, v, o, q, cls, path, labels, i + 1);
        lemma_block_step(a, v, o, q, cls, path[i + 1], path[i + 2], labels[i + 1]);
    }
    assert(is_run(vu.states, cls, pv, lv));
    assert(labels =~= seq![labels[0]] + lv);
    lemma_word_of_append(seq![labels[0]], lv);
    lemma_word_of_none();
    assert(word_of(labels) =~= word_of(lv));
    assert(pv[0] == vu.start as int);
    assert(pv[pv.len() - 1] == vu.end as int);
}

/// The offset behind `k` NFAs of at least one state each is more than `k`.
proof fn lemma_offset_counts(ns: Seq<NfaView>, k: int)
    requires
        0 <= k <= ns.len(),
        forall|j: int| 0 <= j < ns.len() ==> #[trigger] ns[j].states.len() >= 1,
    ensures
        nfa_offset(ns, k) >= k + 1,
    decreases k,
{
    if k > 0 {
        lemma_offset_counts(ns, k - 1);
    }
}

/// A run of the automaton from state 0 to an accepting state of pattern `p` is the step to the
/// start state of its NFA followed by a run of that NFA.
proof fn lemma_pattern_forward(
    a: Seq<AutomatonStateView>,
    mp: MultiPatternNfa,
    m: nat,
    cls: Seq<CharMatcher>,
    w: Seq<char>,
    p: int,
    u: int,
)
    requires
        automaton_of(a, mp),
        mp.wf(m),
        0 <= p < mp.nfas@.len(),
        0 <= u < a.len(),
        nfa_reads(aut_states(a), cls, 0, w, u),
        a[u].accept == Some(p as usize),
    ensures
        nfa_accepts(pattern_nfa(mp, p), cls, w),
{
    let ns = nfas_view(mp.nfas@);
    let st = aut_states(a);
    let (path, labels) = choose|path: Seq<int>, labels: Seq<Option<char>>|
        #[trigger] is_run(st, cls, path, labels) && path[0] == 0 && path[path.len() - 1] == u
            && word_of(labels) == w;
    assert(a[0].accept is None);
    assert(labels.len() > 0);
    // The first step leads from state 0 to the start state of some NFA.
    assert(nfa_step(st, cls, path[0], path[1], labels[0]));
    assert(st[0].trans.len() == 0);
    assert(labels[0] is None);
    let q = choose|j: int| 0 <= j < st[0].eps.len() && #[trigger] st[0].eps[j] == path[1];
    assert(a[0].eps.len() == mp.start_transitions@.len());
    assert forall|j: int| 0 <= j < ns.len() implies #[trigger] ns[j].states.len() >= 1 by {
        assert(nfa_at(ns[j], nfa_offset(ns, j)));
    }
    lemma_offset_counts(ns, ns.len() as int);
    lemma_blocks(a, mp, m, q);
    lemma_block_run(a, ns[q], nfa_offset(ns, q), q, cls, path, labels, w, p);
}

/// A word the NFA of pattern `p` accepts leads the automaton from state 0 to the accepting state
/// of the pattern.
proof fn lemma_block_run_back(a: Seq<AutomatonStateView>, v: NfaView, o: int, p: int, cls: Seq<CharMatcher>, w: Seq<char>)
    requires
        block_at(a, v, o, p),
        0 <= p,
        p < a[0].eps.len(),
        a[0].eps[p] == v.start,
        nfa_accepts(unshifted(v, o), cls, w),
    ensures
        exists|u: int| 0 <= u < a.len() && #[trigger] nfa_reads(aut_states(a), cls, 0, w, u) && a[u].accept == Some(p as usize),
{
    let st = aut_states(a);
    let len = v.states.len() as int;
    let vu = unshifted(v, o);
    assert(nfa_at(v, o));
    let (pv, lv) = choose|path: Seq<int>, labels: Seq<Option<char>>|
        #[trigger] is_run(vu.states, cls, path, labels) && path[0] == vu.start as int
            && path[path.len() - 1] == vu.end as int && word_of(labels) == w;
    let path = seq![0int] + pv.map_values(|x: int| x + o);
    let labels = seq![None::<char>] + lv;
    assert forall|i: int| 0 <= i < labels.len() implies nfa_step(st, cls, path[i], path[i + 1], #[trigger] labels[i]) by {
        if i == 0 {
            assert(st[0].eps[p] == path[1]);
        } else {
            assert(nfa_step(vu.states, cls, pv[i - 1], pv[i], lv[i - 1]));
            assert(0 <= pv[i - 1] < len);
            lemma_block_step(a, v, o, p, cls, pv[i - 1] + o, pv[i] + o, lv[i - 1]);
        }
    }
    assert(is_run(st, cls, path, labels));
    lemma_word_of_append(seq![None::<char>], lv);
    lemma_word_of_none();
    assert(word_of(labels) =~= w);
    let u = v.end as int;
    assert(path[path.len() - 1] == u);
    lemma_block_step(a, v, o, p, cls, u, u, None);
    assert(nfa_reads(st, cls, 0, w, u));
}

/// A word the NFA of pattern `p` accepts leads the automaton from state 0 to the accepting state
/// of the pattern.
proof fn lemma_pattern_backward(
    a: Seq<AutomatonStateView>,
    mp: MultiPatternNfa,
    m: nat,
    cls: Seq<CharMatcher>,
    w: Seq<char>,
    p: int,
)
    requires
        automaton_of(a, mp),
        mp.wf(m),
        0 <= p < mp.nfas@.len(),
        nfa_accepts(pattern_nfa(mp, p), cls, w),
    ensures
        exists|u: int| 0 <= u < a.len() && #[trigger] nfa_reads(aut_states(a), cls, 0, w, u) && a[u].accept == Some(p as usize),
{
    let ns = nfas_view(mp.nfas@);
    lemma_blocks(a, mp, m, p);
    lemma_block_run_back(a, ns[p], nfa_offset(ns, p), p, cls, w);
}

/// The automaton of a multi-pattern NFA reaches an accepting state of pattern `p` from state 0
/// reading `w` exactly when the NFA of pattern `p` accepts `w`.
pub proof fn lemma_pattern_language(
    a: Seq<AutomatonStateView>,
    mp: MultiPatternNfa,
    m: nat,
    cls: Seq<CharMatcher>,
    w: Seq<char>,
    p: int,
)
    requires
        automaton_of(a, mp),
        mp.wf(m),
        0 <= p < mp.nfas@.len(),
    ensures
        (exists|u: int| 0 <= u < a.len() && #[trigger] nfa_reads(aut_states(a), cls, 0, w, u) && a[u].accept == Some(p as usize))
            <==> nfa_accepts(pattern_nfa(mp, p), cls, w),
{
    if exists|u: int| 0 <= u < a.len() && #[trigger] nfa_reads(aut_states(a), cls, 0, w, u) && a[u].accept == Some(p as usize) {
        let u = choose|u: int| 0 <= u < a.len() && #[trigger] nfa_reads(aut_states(a), cls, 0, w, u) && a[u].accept == Some(p as usize);
        lemma_pattern_forward(a, mp, m, cls, w, p, u);
    }
    if nfa_accepts(pattern_nfa(mp, p), cls, w) {
        lemma_pattern_backward(a, mp, m, cls, w, p);
    }
}

/// Pattern `p` matches the `k` characters of the input from `pos` on exactly when the NFA of the
/// pattern accepts them and its lookahead holds behind them; matches are never empty.
pub proof fn lemma_match_valid_language(
    a: Seq<AutomatonStateView>,
    mp: MultiPatternNfa,
    m: nat,
    las: Seq<LookaheadView>,
    cls: Seq<CharMatcher>,
    input: Seq<char>,
    pos: int,
    k: nat,
    p: int,
)
    requires
        automaton_of(a, mp),
        mp.wf(m),
        las.len() == mp.nfas@.len(),
        0 <= pos,
    ensures
        match_valid(a, las, cls, input, pos, k, p) <==> {
            &&& 1 <= k
            &&& pos + k <= input.len()
            &&& 0 <= p < las.len()
            &&& nfa_accepts(pattern_nfa(mp, p), cls, input.subrange(pos, pos + k))
            &&& lookahead_ok(las[p], cls, input, pos + k)
        },
{
    if 1 <= k && pos + k <= input.len() && 0 <= p < las.len() {
        let w = input.subrange(pos, pos + k);
        lemma_pattern_language(a, mp, m, cls, w, p);
        if exists|u: int| 0 <= u < a.len() && #[trigger] in_run(a, cls, input, pos, k, u) && a[u].accept == Some(p as usize) {
            let u = choose|u: int| 0 <= u < a.len() && #[trigger] in_run(a, cls, input, pos, k, u) && a[u].accept == Some(p as usize);
            lemma_in_run_language(a, cls, input, pos, k, u);
            assert(nfa_reads(aut_states(a), cls, 0, w, u));
        }
        if nfa_accepts(pattern_nfa(mp, p), cls, w) {
            let u = choose|u: int| 0 <= u < a.len() && #[trigger] nfa_reads(aut_states(a), cls, 0, w, u) && a[u].accept == Some(p as usize);
            lemma_in_run_language(a, cls, input, pos, k, u);
            assert(in_run(a, cls, input, pos, k, u));
        }
    }
}

/// The automaton of a single NFA, as a lookahead uses it, matches a non-empty prefix of the input
/// from `end` on exactly when the NFA accepts a non-empty word that the input continues with
/// there.
pub proof fn lemma_lookahead_language(
    a: Seq<AutomatonStateView>,
    mp: MultiPatternNfa,
    m: nat,
    cls: Seq<CharMatcher>,
    input: Seq<char>,
    end: int,
)
    requires
        automaton_of(a, mp),
        mp.wf(m),
        mp.nfas@.len() == 1,
        0 <= end,
    ensures
        matches_nonempty(a, cls, input, end) <==> exists|k: nat|
            1 <= k && end + k <= input.len() && #[trigger] nfa_accepts(pattern_nfa(mp, 0), cls, input.subrange(end, end + k)),
{
    let ns = nfas_view(mp.nfas@);
    lemma_blocks(a, mp, m, 0);
    assert(nfa_offset(ns, 0) == 1);
    assert(nfa_offset(ns, 1) == 1 + ns[0].states.len());
    if matches_nonempty(a, cls, input, end) {
        let k = choose|k: nat| 1 <= k && end + k <= input.len() && #[trigger] accepts_after(a, cls, input, end, k);
        let u = choose|u: int| 0 <= u < a.len() && #[trigger] in_run(a, cls, input, end, k, u) && a[u].accept is Some;
        assert(a[0].accept is None);
        assert(1 <= u < 1 + ns[0].states.len());
        lemma_block_step(a, ns[0], 1, 0, cls, u, u, None);
        assert(a[u].accept == Some(0usize));
        let w = input.subrange(end, end + k);
        lemma_in_run_language(a, cls, input, end, k, u);
        lemma_pattern_language(a, mp, m, cls, w, 0);
        assert(nfa_reads(aut_states(a), cls, 0, w, u));
        assert(nfa_accepts(pattern_nfa(mp, 0), cls, w));
    }
    if exists|k: nat| 1 <= k && end + k <= input.len() && #[trigger] nfa_accepts(pattern_nfa(mp, 0), cls, input.subrange(end, end + k)) {
        let k = choose|k: nat| 1 <= k && end + k <= input.len() && #[trigger] nfa_accepts(pattern_nfa(mp, 0), cls, input.subrange(end, end + k));
        let w = input.subrange(end, end + k);
        lemma_pattern_language(a, mp, m, cls, w, 0);
        let u = choose|u: int| 0 <= u < a.len() && #[trigger] nfa_reads(aut_states(a), cls, 0, w, u) && a[u].accept == Some(0usize);
        lemma_in_run_language(a, cls, input, end, k, u);
        assert(in_run(a, cls, input, end, k, u));
        assert(accepts_after(a, cls, input, end, k));
    }
}

/// A multi-pattern NFA, with the bound of its character classes, whose automaton is `a` and
/// whose `count` patterns are built from trees (see [automaton_from_trees]).
pub open spec fn automaton_source(a: Seq<AutomatonStateView>, count: nat, keys: Seq<KeyView>, cls: Seq<CharMatcher>) -> (MultiPatternNfa, nat) {
    choose|mp: MultiPatternNfa, m: nat|
        #![trigger automaton_of(a, mp), mp.wf(m)]
        automaton_of(a, mp) && mp.wf(m) && mp.nfas@.len() == count
            && forall|k: int| 0 <= k < count ==> #[trigger] pattern_from_tree(mp, k, keys, cls)
}

/// The regular expression tree of pattern `p` of an automaton built from trees.
pub open spec fn automaton_tree(a: Seq<AutomatonStateView>, count: nat, keys: Seq<KeyView>, cls: Seq<CharMatcher>, p: int) -> RegexTree {
    let mp = automaton_source(a, count, keys, cls).0;
    choose|t: RegexTree| tree_refusal(t) is None && #[trigger] reads_as_tree(pattern_nfa(mp, p), t, keys, cls)
}

/// Pattern `p` of an automaton built from trees matches the `k` characters of the input from
/// `pos` on exactly when the tree of the pattern reads them and the lookahead of the pattern holds
/// behind them, under the registry the automaton was built with and every extension of it.
pub proof fn lemma_match_reads_tree(
    a: Seq<AutomatonStateView>,
    count: nat,
    las: Seq<LookaheadView>,
    keys: Seq<KeyView>,
    cls: Seq<CharMatcher>,
    keys2: Seq<KeyView>,
    cls2: Seq<CharMatcher>,
    input: Seq<char>,
    pos: int,
    k: nat,
    p: int,
)
    requires
        automaton_from_trees(a, count, keys, cls),
        las.len() == count,
        registry_extends(keys, cls, keys2, cls2),
        0 <= pos,
        0 <= p < count,
    ensures
        tree_refusal(automaton_tree(a, count, keys, cls, p)) is None,
        match_valid(a, las, cls2, input, pos, k, p) <==> {
            &&& 1 <= k
            &&& pos + k <= input.len()
            &&& tree_accepts(automaton_tree(a, count, keys, cls, p), keys2, cls2, input.subrange(pos, pos + k))
            &&& lookahead_ok(las[p], cls2, input, pos + k)
        },
{
    let (mp, m) = automaton_source(a, count, keys, cls);
    assert(pattern_from_tree(mp, p, keys, cls));
    let t = automaton_tree(a, count, keys, cls, p);
    assert(reads_as_tree(pattern_nfa(mp, p), t, keys, cls));
    lemma_match_valid_language(a, mp, m, las, cls2, input, pos, k, p);
    if 1 <= k && pos + k <= input.len() {
        let w = input.subrange(pos, pos + k);
        assert(nfa_accepts(pattern_nfa(mp, p), cls2, w) <==> tree_accepts(t, keys2, cls2, w));
    }
}

/// A lookahead automaton built from a tree matches a non-empty prefix of the input from `end` on
/// exactly when its tree reads a non-empty word that the input continues with there.
pub proof fn lemma_lookahead_reads_tree(
    a: Seq<AutomatonStateView>,
    keys: Seq<KeyView>,
    cls: Seq<CharMatcher>,
    keys2: Seq<KeyView>,
    cls2: Seq<CharMatcher>,
    input: Seq<char>,
    end: int,
)
    requires
        automaton_from_trees(a, 1, keys, cls),
        registry_extends(keys, cls, keys2, cls2),
        0 <= end,
    ensures
        tree_refusal(automaton_tree(a, 1, keys, cls, 0)) is None,
        matches_nonempty(a, cls2, input, end) <==> exists|k: nat|
            1 <= k && end + k <= input.len()
                && #[trigger] tree_accepts(automaton_tree(a, 1, keys, cls, 0), keys2, cls2, input.subrange(end, end + k)),
{
    let (mp, m) = automaton_source(a, 1, keys, cls);
    assert(pattern_from_tree(mp, 0, keys, cls));
    let t = automaton_tree(a, 1, keys, cls, 0);
    assert(reads_as_tree(pattern_nfa(mp, 0), t, keys, cls));
    lemma_lookahead_language(a, mp, m, cls2, input, end);
    if matches_nonempty(a, cls2, input, end) {
        let k = choose|k: nat| 1 <= k && end + k <= input.len() && #[trigger] nfa_accepts(pattern_nfa(mp, 0), cls2, input.subrange(end, end + k));
        assert(tree_accepts(t, keys2, cls2, input.subrange(end, end + k)));
    }
    if exists|k: nat| 1 <= k && end + k <= input.len() && #[trigger] tree_accepts(t, keys2, cls2, input.subrange(end, end + k)) {
        let k = choose|k: nat| 1 <= k && end + k <= input.len() && #[trigger] tree_accepts(t, keys2, cls2, input.subrange(end, end + k));
        assert(nfa_accepts(pattern_nfa(mp, 0), cls2, input.subrange(end, end + k)));
    }
}

} // verus!
