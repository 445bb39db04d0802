//! The words an NFA accepts, and how the constructions of NFAs combine them.
use vstd::prelude::*;
use crate::char_matcher::{matcher_has, CharMatcher};
use crate::nfa::{alternation_states, concat_states, nfa_is_empty, nfa_wf, one_or_more_states, shift_states, zero_or_more_states, zero_or_one_states, NfaView, NfaStateView};

verus! {

/// One step between two states: an epsilon transition, reading nothing, or a transition on a
/// character class that contains the character read.
pub open spec fn nfa_step(states: Seq<NfaStateView>, cls: Seq<CharMatcher>, s: int, t: int, c: Option<char>) -> bool {
    &&& 0 <= s < states.len()
    &&& match c {
        None => exists|j: int| 0 <= j < states[s].eps.len() && #[trigger] states[s].eps[j] == t,
        Some(ch) => exists|j: int|
            0 <= j < states[s].trans.len() && #[trigger] states[s].trans[j].1 == t
                && states[s].trans[j].0 < cls.len() && matcher_has(cls[states[s].trans[j].0 as int], ch),
    }
}

/// The characters read along the labels of the steps of a run.
pub open spec fn word_of(labels: Seq<Option<char>>) -> Seq<char>
    decreases labels.len(),
{
    if labels.len() == 0 {
        Seq::empty()
    } else {
        word_of(labels.drop_last()) + match labels.last() {
            Some(c) => seq![c],
            None => Seq::empty(),
        }
    }
}

/// The states of `path` follow each other by steps labelled with `labels`.
pub open spec fn is_run(states: Seq<NfaStateView>, cls: Seq<CharMatcher>, path: Seq<int>, labels: Seq<Option<char>>) -> bool {
    &&& path.len() == labels.len() + 1
    &&& forall|i: int| 0 <= i < labels.len() ==> nfa_step(states, cls, path[i], path[i + 1], #[trigger] labels[i])
}

/// Some run leads from state `from` to state `to` reading `w`.
pub open spec fn nfa_reads(states: Seq<NfaStateView>, cls: Seq<CharMatcher>, from: int, w: Seq<char>, to: int) -> bool {
    exists|path: Seq<int>, labels: Seq<Option<char>>|
        #[trigger] is_run(states, cls, path, labels) && path[0] == from && path[path.len() - 1] == to
            && word_of(labels) == w
}

/// The NFA accepts `w`: a run leads from its start state to its end state reading `w`.
pub open spec fn nfa_accepts(v: NfaView, cls: Seq<CharMatcher>, w: Seq<char>) -> bool {
    nfa_reads(v.states, cls, v.start as int, w, v.end as int)
}

/// The word read along two runs one after the other.
pub proof fn lemma_word_of_append(x: Seq<Option<char>>, y: Seq<Option<char>>)
    ensures
        word_of(x + y) == word_of(x) + word_of(y),
    decreases y.len(),
{
    if y.len() == 0 {
        assert(x + y =~= x);
        assert(word_of(y) =~= Seq::<char>::empty());
        assert(word_of(x) + word_of(y) =~= word_of(x));
    } else {
        lemma_word_of_append(x, y.drop_last());
        assert((x + y).drop_last() =~= x + y.drop_last());
        assert((x + y).last() == y.last());
        let tail = match y.last() {
            Some(c) => seq![c],
            None => Seq::<char>::empty(),
        };
        assert(word_of(x + y) == word_of(x + y.drop_last()) + tail);
        assert(word_of(y) == word_of(y.drop_last()) + tail);
        assert(word_of(x) + word_of(y.drop_last()) + tail =~= word_of(x) + (word_of(y.drop_last()) + tail));
    }
}

/// An epsilon step reads nothing.
pub proof fn lemma_word_of_none()
    ensures
        word_of(seq![None::<char>]) == Seq::<char>::empty(),
{
    let l = seq![None::<char>];
    assert(l.drop_last() =~= Seq::<Option<char>>::empty());
    assert(word_of(Seq::<Option<char>>::empty()) =~= Seq::<char>::empty());
    assert(l.last() == None::<char>);
    assert(word_of(l) =~= word_of(l.drop_last()) + Seq::<char>::empty());
}

/// The run that stays in one state reads nothing.
pub proof fn lemma_empty_run(states: Seq<NfaStateView>, cls: Seq<CharMatcher>, s: int)
    ensures
        nfa_reads(states, cls, s, Seq::empty(), s),
{
    let path = seq![s];
    let labels = Seq::<Option<char>>::empty();
    assert(is_run(states, cls, path, labels));
    assert(word_of(labels) =~= Seq::<char>::empty());
}

/// The empty NFA accepts exactly the empty word.
pub proof fn lemma_empty_language(a: NfaView, cls: Seq<CharMatcher>, w: Seq<char>)
    requires
        nfa_is_empty(a),
    ensures
        nfa_accepts(a, cls, w) <==> w == Seq::<char>::empty(),
{
    if nfa_accepts(a, cls, w) {
        let (path, labels) = choose|path: Seq<int>, labels: Seq<Option<char>>|
            #[trigger] is_run(a.states, cls, path, labels) && path[0] == a.start as int
                && path[path.len() - 1] == a.end as int && word_of(labels) == w;
        if labels.len() > 0 {
            assert(nfa_step(a.states, cls, path[0], path[1], labels[0]));
        }
        assert(labels =~= Seq::<Option<char>>::empty());
    }
    if w == Seq::<char>::empty() {
        lemma_empty_run(a.states, cls, 0);
    }
}

/// The steps within the first NFA of a concatenation are steps of it, and the other way round:
/// a step of the first NFA is one of the concatenation.
proof fn lemma_concat_left_step(a: NfaView, b: NfaView, cls: Seq<CharMatcher>, s: int, t: int, c: Option<char>)
    requires
        nfa_wf(a),
        nfa_step(a.states, cls, s, t, c),
    ensures
        nfa_step(concat_states(a, b), cls, s, t, c),
{
    let st = concat_states(a, b);
    let n = a.states.len() as int;
    assert(st[s].trans == a.states[s].trans);
    assert(s != a.end ==> st[s] == a.states[s]);
    match c {
        None => {
            let j = choose|j: int| 0 <= j < a.states[s].eps.len() && #[trigger] a.states[s].eps[j] == t;
            assert(st[s].eps[j] == t);
        },
        Some(ch) => {
            let j = choose|j: int|
                0 <= j < a.states[s].trans.len() && #[trigger] a.states[s].trans[j].1 == t
                    && a.states[s].trans[j].0 < cls.len() && matcher_has(cls[a.states[s].trans[j].0 as int], ch);
            assert(st[s].trans[j].1 == t);
        },
    }
}

/// A step of the second NFA of a concatenation is one of the concatenation between the raised
/// state numbers.
proof fn lemma_concat_right_step(a: NfaView, b: NfaView, cls: Seq<CharMatcher>, s: int, t: int, c: Option<char>)
    requires
        nfa_wf(a),
        nfa_wf(b),
        a.states.len() + b.states.len() <= usize::MAX,
        nfa_step(b.states, cls, s, t, c),
    ensures
        nfa_step(concat_states(a, b), cls, s + a.states.len(), t + a.states.len(), c),
{
    let st = concat_states(a, b);
    let n = a.states.len() as int;
    let bs = shift_states(b.states, n as usize);
    assert(st[s + n] == bs[s]);
    match c {
        None => {
            let j = choose|j: int| 0 <= j < b.states[s].eps.len() && #[trigger] b.states[s].eps[j] == t;
            assert(b.states[s].eps[j] < b.states.len());
            assert(st[s + n].eps[j] == t + n);
        },
        Some(ch) => {
            let j = choose|j: int|
                0 <= j < b.states[s].trans.len() && #[trigger] b.states[s].trans[j].1 == t
                    && b.states[s].trans[j].0 < cls.len() && matcher_has(cls[b.states[s].trans[j].0 as int], ch);
            assert(b.states[s].trans[j].1 < b.states.len());
            assert(st[s + n].trans[j] == (b.states[s].trans[j].0, (t + n) as usize));
            assert(st[s + n].trans[j].1 == t + n);
        },
    }
}

/// The steps of a concatenation: within the first NFA, from its end state to the start state of
/// the second, and within the second.
proof fn lemma_concat_step_back(a: NfaView, b: NfaView, cls: Seq<CharMatcher>, s: int, t: int, c: Option<char>)
    requires
        nfa_wf(a),
        nfa_wf(b),
        a.states.len() + b.states.len() <= usize::MAX,
        nfa_step(concat_states(a, b), cls, s, t, c),
    ensures
        s < a.states.len() && s != a.end ==> t < a.states.len() && nfa_step(a.states, cls, s, t, c),
        s == a.end ==> c is None && t == b.start + a.states.len(),
        s >= a.states.len() ==> t >= a.states.len() && nfa_step(b.states, cls, s - a.states.len(), t - a.states.len(), c),
{
    let st = concat_states(a, b);
    let n = a.states.len() as int;
    let bs = shift_states(b.states, n as usize);
    if s < n && s != a.end {
        assert(st[s] == a.states[s]);
        match c {
            None => {
                let j = choose|j: int| 0 <= j < st[s].eps.len() && #[trigger] st[s].eps[j] == t;
                assert(a.states[s].eps[j] < n);
            },
            Some(ch) => {
                let j = choose|j: int|
                    0 <= j < st[s].trans.len() && #[trigger] st[s].trans[j].1 == t
                        && st[s].trans[j].0 < cls.len() && matcher_has(cls[st[s].trans[j].0 as int], ch);
                assert(a.states[s].trans[j].1 < n);
            },
        }
    }
    if s == a.end {
        assert(st[s].eps =~= seq![(b.start + n) as usize]);
        assert(st[s].trans.len() == 0);
        match c {
            None => {
                let j = choose|j: int| 0 <= j < st[s].eps.len() && #[trigger] st[s].eps[j] == t;
            },
            Some(ch) => {},
        }
    }
    if s >= n {
        let k = s - n;
        assert(st[s] == bs[k]);
        match c {
            None => {
                let j = choose|j: int| 0 <= j < st[s].eps.len() && #[trigger] st[s].eps[j] == t;
                assert(b.states[k].eps[j] < b.states.len());
                assert(b.states[k].eps[j] == t - n);
            },
            Some(ch) => {
                let j = choose|j: int|
                    0 <= j < st[s].trans.len() && #[trigger] st[s].trans[j].1 == t
                        && st[s].trans[j].0 < cls.len() && matcher_has(cls[st[s].trans[j].0 as int], ch);
                assert(b.states[k].trans[j].1 < b.states.len());
                assert(b.states[k].trans[j].1 == t - n);
                assert(b.states[k].trans[j].0 == st[s].trans[j].0);
            },
        }
    }
}

/// The first index at which a path that starts below `n` and ends at or above it reaches `n`.
proof fn lemma_first_crossing(p: Seq<int>, n: int) -> (k: int)
    requires
        p.len() > 0,
        p[0] < n,
        p[p.len() - 1] >= n,
    ensures
        0 < k < p.len(),
        p[k] >= n,
        forall|i: int| 0 <= i < k ==> p[i] < n,
    decreases p.len(),
{
    if p[1] >= n {
        1
    } else {
        let q = p.subrange(1, p.len() as int);
        let k1 = lemma_first_crossing(q, n);
        assert forall|i: int| 0 <= i < k1 + 1 implies p[i] < n by {
            if i > 0 {
                assert(p[i] == q[i - 1]);
            }
        }
        k1 + 1
    }
}

/// A run of a concatenation that has reached the second NFA stays in it.
proof fn lemma_concat_stays_right(
    a: NfaView,
    b: NfaView,
    cls: Seq<CharMatcher>,
    path: Seq<int>,
    labels: Seq<Option<char>>,
    k: int,
    i: int,
)
    requires
        nfa_wf(a),
        nfa_wf(b),
        a.states.len() + b.states.len() <= usize::MAX,
        is_run(concat_states(a, b), cls, path, labels),
        0 <= k <= i < path.len(),
        path[k] >= a.states.len(),
    ensures
        path[i] >= a.states.len(),
    decreases i - k,
{
    if i > k {
        lemma_concat_stays_right(a, b, cls, path, labels, k, i - 1);
        assert(nfa_step(concat_states(a, b), cls, path[i - 1], path[i], labels[i - 1]));
        lemma_concat_step_back(a, b, cls, path[i - 1], path[i], labels[i - 1]);
    }
}

/// Concatenating two NFAs concatenates the words they accept: the concatenation accepts a word
/// exactly when it splits into a word the first NFA accepts followed by one the second accepts.
/// Where the first NFA is the empty one, the concatenation is the second NFA.
pub proof fn lemma_concat_language(a: NfaView, b: NfaView, r: NfaView, cls: Seq<CharMatcher>, w: Seq<char>)
    requires
        nfa_wf(a),
        nfa_wf(b),
        a.states.len() + b.states.len() <= usize::MAX,
        nfa_is_empty(a) ==> r == b,
        !nfa_is_empty(a) ==> r.states == concat_states(a, b) && r.start == a.start
            && r.end == b.end + a.states.len(),
    ensures
        nfa_accepts(r, cls, w) <==> exists|w1: Seq<char>, w2: Seq<char>|
            w == w1 + w2 && #[trigger] nfa_accepts(a, cls, w1) && #[trigger] nfa_accepts(b, cls, w2),
{
    if nfa_is_empty(a) {
        lemma_empty_language(a, cls, Seq::empty());
        if nfa_accepts(r, cls, w) {
            assert(w == Seq::<char>::empty() + w);
            assert(nfa_accepts(a, cls, Seq::empty()) && nfa_accepts(b, cls, w));
        }
        if exists|w1: Seq<char>, w2: Seq<char>| w == w1 + w2 && #[trigger] nfa_accepts(a, cls, w1) && #[trigger] nfa_accepts(b, cls, w2) {
            let (w1, w2) = choose|w1: Seq<char>, w2: Seq<char>|
                w == w1 + w2 && #[trigger] nfa_accepts(a, cls, w1) && #[trigger] nfa_accepts(b, cls, w2);
            lemma_empty_language(a, cls, w1);
            assert(w =~= w2);
        }
    } else {
        if nfa_accepts(r, cls, w) {
            lemma_concat_forward(a, b, r, cls, w);
        }
        if exists|w1: Seq<char>, w2: Seq<char>| w == w1 + w2 && #[trigger] nfa_accepts(a, cls, w1) && #[trigger] nfa_accepts(b, cls, w2) {
            let (w1, w2) = choose|w1: Seq<char>, w2: Seq<char>|
                w == w1 + w2 && #[trigger] nfa_accepts(a, cls, w1) && #[trigger] nfa_accepts(b, cls, w2);
            lemma_concat_backward(a, b, r, cls, w1, w2);
        }
    }
}

/// A word the concatenation accepts splits into words the two NFAs accept.
proof fn lemma_concat_forward(a: NfaView, b: NfaView, r: NfaView, cls: Seq<CharMatcher>, w: Seq<char>)
    requires
        nfa_wf(a),
        nfa_wf(b),
        a.states.len() + b.states.len() <= usize::MAX,
        r.states == concat_states(a, b),
        r.start == a.start,
        r.end == b.end + a.states.len(),
        nfa_accepts(r, cls, w),
    ensures
        exists|w1: Seq<char>, w2: Seq<char>|
            w == w1 + w2 && #[trigger] nfa_accepts(a, cls, w1) && #[trigger] nfa_accepts(b, cls, w2),
{
    let n = a.states.len() as int;
    let st = concat_states(a, b);
    let (path, labels) = choose|path: Seq<int>, labels: Seq<Option<char>>|
        #[trigger] is_run(r.states, cls, path, labels) && path[0] == r.start as int
            && path[path.len() - 1] == r.end as int && word_of(labels) == w;
    let k = lemma_first_crossing(path, n);
    // The step into the second NFA is the epsilon step from the end state of the first.
    assert(nfa_step(st, cls, path[k - 1], path[k], labels[k - 1]));
    lemma_concat_step_back(a, b, cls, path[k - 1], path[k], labels[k - 1]);
    assert(path[k - 1] == a.end);
    // The run up to there is a run of the first NFA.
    let pa = path.subrange(0, k);
    let la = labels.subrange(0, k - 1);
    assert forall|i: int| 0 <= i < la.len() implies nfa_step(a.states, cls, pa[i], pa[i + 1], #[trigger] la[i]) by {
        assert(nfa_step(st, cls, path[i], path[i + 1], labels[i]));
        if path[i] == a.end {
            lemma_concat_step_back(a, b, cls, path[i], path[i + 1], labels[i]);
            assert(path[i + 1] >= n);
        }
        lemma_concat_step_back(a, b, cls, path[i], path[i + 1], labels[i]);
    }
    assert(is_run(a.states, cls, pa, la));
    // The run from there is a run of the second NFA.
    let pb = path.subrange(k, path.len() as int).map_values(|x: int| x - n);
    let lb = labels.subrange(k, labels.len() as int);
    assert forall|i: int| 0 <= i < lb.len() implies nfa_step(b.states, cls, pb[i], pb[i + 1], #[trigger] lb[i]) by {
        assert(nfa_step(st, cls, path[k + i], path[k + i + 1], labels[k + i]));
        lemma_concat_stays_right(a, b, cls, path, labels, k, k + i);
        lemma_concat_step_back(a, b, cls, path[k + i], path[k + i + 1], labels[k + i]);
    }
    assert(is_run(b.states, cls, pb, lb));
    // The words.
    assert(labels =~= la + seq![labels[k - 1]] + lb);
    lemma_word_of_append(la + seq![labels[k - 1]], lb);
    lemma_word_of_append(la, seq![labels[k - 1]]);
    lemma_word_of_none();
    let w1 = word_of(la);
    let w2 = word_of(lb);
    assert(w == w1 + w2);
    assert(pa[0] == a.start as int && pa[pa.len() - 1] == a.end as int);
    assert(nfa_accepts(a, cls, w1));
    assert(pb[0] == b.start as int && pb[pb.len() - 1] == b.end as int);
    assert(nfa_accepts(b, cls, w2));
}

/// Words the two NFAs accept, one after the other, are accepted by the concatenation.
proof fn lemma_concat_backward(a: NfaView, b: NfaView, r: NfaView, cls: Seq<CharMatcher>, w1: Seq<char>, w2: Seq<char>)
    requires
        nfa_wf(a),
        nfa_wf(b),
        a.states.len() + b.states.len() <= usize::MAX,
        r.states == concat_states(a, b),
        r.start == a.start,
        r.end == b.end + a.states.len(),
        nfa_accepts(a, cls, w1),
        nfa_accepts(b, cls, w2),
    ensures
        nfa_accepts(r, cls, w1 + w2),
{
    let n = a.states.len() as int;
    let st = concat_states(a, b);
    let (pa, la) = choose|path: Seq<int>, labels: Seq<Option<char>>|
        #[trigger] is_run(a.states, cls, path, labels) && path[0] == a.start as int
            && path[path.len() - 1] == a.end as int && word_of(labels) == w1;
    let (pb, lb) = choose|path: Seq<int>, labels: Seq<Option<char>>|
        #[trigger] is_run(b.states, cls, path, labels) && path[0] == b.start as int
            && path[path.len() - 1] == b.end as int && word_of(labels) == w2;
    let qb = pb.map_values(|x: int| x + n);
    let path = pa + qb;
    let labels = la + seq![None::<char>] + lb;
    assert forall|i: int| 0 <= i < labels.len() implies nfa_step(st, cls, path[i], path[i + 1], #[trigger] labels[i]) by {
        if i < la.len() {
            assert(nfa_step(a.states, cls, pa[i], pa[i + 1], la[i]));
            lemma_concat_left_step(a, b, cls, pa[i], pa[i + 1], la[i]);
        } else if i == la.len() {
            assert(path[i] == a.end as int);
            assert(path[i + 1] == b.start + n);
            assert(st[a.end as int].eps[a.states[a.end as int].eps.len() as int] == b.start + n);
        } else {
            let j = i - la.len() - 1;
            assert(nfa_step(b.states, cls, pb[j], pb[j + 1], lb[j]));
            lemma_concat_right_step(a, b, cls, pb[j], pb[j + 1], lb[j]);
            assert(path[i] == pb[j] + n);
            assert(path[i + 1] == pb[j + 1] + n);
        }
    }
    assert(is_run(st, cls, path, labels));
    lemma_word_of_append(la + seq![None::<char>], lb);
    lemma_word_of_append(la, seq![None::<char>]);
    lemma_word_of_none();
    assert(word_of(labels) =~= w1 + w2);
    assert(path[0] == r.start as int);
    assert(path[path.len() - 1] == r.end as int);
}


/// The first index from `from` on at which a path leaves the range from `lo` to `hi`.
proof fn lemma_first_exit(p: Seq<int>, lo: int, hi: int, from: int) -> (k: int)
    requires
        0 <= from < p.len(),
        lo <= p[from] < hi,
        !(lo <= p[p.len() - 1] < hi),
    ensures
        from < k < p.len(),
        !(lo <= p[k] < hi),
        forall|i: int| from <= i < k ==> lo <= #[trigger] p[i] < hi,
    decreases p.len() - from,
{
    if !(lo <= p[from + 1] < hi) {
        from + 1
    } else {
        lemma_first_exit(p, lo, hi, from + 1)
    }
}

/// A step of the first NFA of an alternation is one of the alternation.
proof fn lemma_alt_left_step(a: NfaView, b: NfaView, cls: Seq<CharMatcher>, s: int, t: int, c: Option<char>)
    requires
        nfa_wf(a),
        nfa_step(a.states, cls, s, t, c),
    ensures
        nfa_step(alternation_states(a, b), cls, s, t, c),
{
    let st = alternation_states(a, b);
    assert(st[s].trans == a.states[s].trans);
    match c {
        None => {
            let j = choose|j: int| 0 <= j < a.states[s].eps.len() && #[trigger] a.states[s].eps[j] == t;
            assert(st[s].eps[j] == t);
        },
        Some(ch) => {
            let j = choose|j: int|
                0 <= j < a.states[s].trans.len() && #[trigger] a.states[s].trans[j].1 == t
                    && a.states[s].trans[j].0 < cls.len() && matcher_has(cls[a.states[s].trans[j].0 as int], ch);
            assert(st[s].trans[j].1 == t);
        },
    }
}

/// A step of the second NFA of an alternation is one of the alternation between the raised
/// state numbers.
proof fn lemma_alt_right_step(a: NfaView, b: NfaView, cls: Seq<CharMatcher>, s: int, t: int, c: Option<char>)
    requires
        nfa_wf(a),
        nfa_wf(b),
        a.states.len() + b.states.len() + 2 <= usize::MAX,
        nfa_step(b.states, cls, s, t, c),
    ensures
        nfa_step(alternation_states(a, b), cls, s + a.states.len(), t + a.states.len(), c),
{
    let st = alternation_states(a, b);
    let off = a.states.len() as int;
    let bs = shift_states(b.states, off as usize);
    assert(st[s + off].trans == bs[s].trans);
    match c {
        None => {
            let j = choose|j: int| 0 <= j < b.states[s].eps.len() && #[trigger] b.states[s].eps[j] == t;
            assert(b.states[s].eps[j] < b.states.len());
            assert(st[s + off].eps[j] == bs[s].eps[j]);
            assert(st[s + off].eps[j] == t + off);
        },
        Some(ch) => {
            let j = choose|j: int|
                0 <= j < b.states[s].trans.len() && #[trigger] b.states[s].trans[j].1 == t
                    && b.states[s].trans[j].0 < cls.len() && matcher_has(cls[b.states[s].trans[j].0 as int], ch);
            assert(b.states[s].trans[j].1 < b.states.len());
            assert(st[s + off].trans[j] == (b.states[s].trans[j].0, (t + off) as usize));
            assert(st[s + off].trans[j].1 == t + off);
        },
    }
}

/// The steps of an alternation: from the new start state to the start state of either NFA,
/// within either NFA, and from either end state to the new end state.
proof fn lemma_alt_step_back(a: NfaView, b: NfaView, cls: Seq<CharMatcher>, s: int, t: int, c: Option<char>)
    requires
        nfa_wf(a),
        nfa_wf(b),
        a.states.len() + b.states.len() + 2 <= usize::MAX,
        nfa_step(alternation_states(a, b), cls, s, t, c),
    ensures
        s < a.states.len() && s != a.end ==> t < a.states.len() && nfa_step(a.states, cls, s, t, c),
        s == a.end ==> c is None && t == a.states.len() + b.states.len() + 1,
        a.states.len() <= s < a.states.len() + b.states.len() && s != b.end + a.states.len() ==>
            a.states.len() <= t < a.states.len() + b.states.len()
            && nfa_step(b.states, cls, s - a.states.len(), t - a.states.len(), c),
        s == b.end + a.states.len() ==> c is None && t == a.states.len() + b.states.len() + 1,
        s == a.states.len() + b.states.len() ==> c is None && (t == a.start || t == b.start + a.states.len()),
        s < a.states.len() + b.states.len() + 1,
{
    let st = alternation_states(a, b);
    let off = a.states.len() as int;
    let n = off + b.states.len();
    let bs = shift_states(b.states, off as usize);
    assert(st.len() == n + 2);
    if s < off && s != a.end {
        assert(st[s] == a.states[s]);
        match c {
            None => {
                let j = choose|j: int| 0 <= j < st[s].eps.len() && #[trigger] st[s].eps[j] == t;
                assert(a.states[s].eps[j] < off);
            },
            Some(ch) => {
                let j = choose|j: int|
                    0 <= j < st[s].trans.len() && #[trigger] st[s].trans[j].1 == t
                        && st[s].trans[j].0 < cls.len() && matcher_has(cls[st[s].trans[j].0 as int], ch);
                assert(a.states[s].trans[j].1 < off);
            },
        }
    }
    if s == a.end {
        assert(st[s].eps =~= seq![(n + 1) as usize]);
        assert(st[s].trans.len() == 0);
        match c {
            None => {
                let j = choose|j: int| 0 <= j < st[s].eps.len() && #[trigger] st[s].eps[j] == t;
            },
            Some(ch) => {},
        }
    }
    if off <= s < n && s != b.end + off {
        let k = s - off;
        assert(st[s] == bs[k]);
        match c {
            None => {
                let j = choose|j: int| 0 <= j < st[s].eps.len() && #[trigger] st[s].eps[j] == t;
                assert(b.states[k].eps[j] < b.states.len());
                assert(b.states[k].eps[j] == t - off);
            },
            Some(ch) => {
                let j = choose|j: int|
                    0 <= j < st[s].trans.len() && #[trigger] st[s].trans[j].1 == t
                        && st[s].trans[j].0 < cls.len() && matcher_has(cls[st[s].trans[j].0 as int], ch);
                assert(b.states[k].trans[j].1 < b.states.len());
                assert(b.states[k].trans[j].1 == t - off);
                assert(b.states[k].trans[j].0 == st[s].trans[j].0);
            },
        }
    }
    if s == b.end + off {
        assert(st[s].eps =~= seq![(n + 1) as usize]);
        assert(st[s].trans.len() == 0);
        match c {
            None => {
                let j = choose|j: int| 0 <= j < st[s].eps.len() && #[trigger] st[s].eps[j] == t;
            },
            Some(ch) => {},
        }
    }
    if s == n {
        assert(st[s].eps =~= seq![a.start, (b.start + off) as usize]);
        assert(st[s].trans.len() == 0);
        match c {
            None => {
                let j = choose|j: int| 0 <= j < st[s].eps.len() && #[trigger] st[s].eps[j] == t;
            },
            Some(ch) => {},
        }
    }
    if s == n + 1 {
        assert(st[s].eps.len() == 0);
        assert(st[s].trans.len() == 0);
    }
}

/// A run of an alternation that goes from the start state of one of the two NFAs to the new
/// end state is a run of that NFA followed by the step to the new end state.
proof fn lemma_alt_forward(a: NfaView, b: NfaView, r: NfaView, cls: Seq<CharMatcher>, w: Seq<char>)
    requires
        nfa_wf(a),
        nfa_wf(b),
        a.states.len() + b.states.len() + 2 <= usize::MAX,
        r.states == alternation_states(a, b),
        r.start == a.states.len() + b.states.len(),
        r.end == a.states.len() + b.states.len() + 1,
        nfa_accepts(r, cls, w),
    ensures
        nfa_accepts(a, cls, w) || nfa_accepts(b, cls, w),
{
    let off = a.states.len() as int;
    let n = off + b.states.len();
    let st = alternation_states(a, b);
    let (path, labels) = choose|path: Seq<int>, labels: Seq<Option<char>>|
        #[trigger] is_run(r.states, cls, path, labels) && path[0] == r.start as int
            && path[path.len() - 1] == r.end as int && word_of(labels) == w;
    assert(path.len() > 1);
    assert(nfa_step(st, cls, path[0], path[1], labels[0]));
    lemma_alt_step_back(a, b, cls, path[0], path[1], labels[0]);
    // The last state of a run has no step, so the new end state ends the run.
    let (lo, hi) = if path[1] == a.start { (0, off) } else { (off, n) };
    let k = lemma_first_exit(path, lo, hi, 1);
    assert(nfa_step(st, cls, path[k - 1], path[k], labels[k - 1]));
    lemma_alt_step_back(a, b, cls, path[k - 1], path[k], labels[k - 1]);
    let e = if path[1] == a.start { a.end as int } else { b.end + off };
    assert(path[k - 1] == e);
    assert(path[k] == n + 1);
    if k < path.len() - 1 {
        assert(nfa_step(st, cls, path[k], path[k + 1], labels[k]));
        lemma_alt_step_back(a, b, cls, path[k], path[k + 1], labels[k]);
    }
    assert(k == path.len() - 1);
    let inner = path.subrange(1, k).map_values(|x: int| x - lo);
    let li = labels.subrange(1, k - 1);
    let states = if path[1] == a.start { a.states } else { b.states };
    assert forall|i: int| 0 <= i < li.len() implies nfa_step(states, cls, inner[i], inner[i + 1], #[trigger] li[i]) by {
        assert(nfa_step(st, cls, path[1 + i], path[2 + i], labels[1 + i]));
        lemma_alt_step_back(a, b, cls, path[1 + i], path[2 + i], labels[1 + i]);
        assert(lo <= path[1 + i] < hi);
        assert(path[1 + i] != e);
    }
    assert(is_run(states, cls, inner, li));
    assert(labels =~= seq![labels[0]] + li + seq![labels[k - 1]]);
    lemma_word_of_append(seq![labels[0]] + li, seq![labels[k - 1]]);
    lemma_word_of_append(seq![labels[0]], li);
    lemma_word_of_none();
    assert(word_of(labels) =~= word_of(li));
    if path[1] == a.start {
        assert(inner[0] == a.start as int && inner[inner.len() - 1] == a.end as int);
        assert(nfa_accepts(a, cls, w));
    } else {
        assert(inner[0] == b.start as int && inner[inner.len() - 1] == b.end as int);
        assert(nfa_accepts(b, cls, w));
    }
}

/// A word one of the two NFAs accepts is accepted by the alternation.
proof fn lemma_alt_backward(a: NfaView, b: NfaView, r: NfaView, cls: Seq<CharMatcher>, w: Seq<char>, left: bool)
    requires
        nfa_wf(a),
        nfa_wf(b),
        a.states.len() + b.states.len() + 2 <= usize::MAX,
        r.states == alternation_states(a, b),
        r.start == a.states.len() + b.states.len(),
        r.end == a.states.len() + b.states.len() + 1,
        left ==> nfa_accepts(a, cls, w),
        !left ==> nfa_accepts(b, cls, w),
    ensures
        nfa_accepts(r, cls, w),
{
    let off = a.states.len() as int;
    let n = off + b.states.len();
    let st = alternation_states(a, b);
    let v = if left { a } else { b };
    let lo = if left { 0 } else { off };
    let (p, l) = choose|path: Seq<int>, labels: Seq<Option<char>>|
        #[trigger] is_run(v.states, cls, path, labels) && path[0] == v.start as int
            && path[path.len() - 1] == v.end as int && word_of(labels) == w;
    let q = p.map_values(|x: int| x + lo);
    let path = seq![n] + q + seq![n + 1];
    let labels = seq![None::<char>] + l + seq![None::<char>];
    assert forall|i: int| 0 <= i < labels.len() implies nfa_step(st, cls, path[i], path[i + 1], #[trigger] labels[i]) by {
        if i == 0 {
            assert(path[1] == v.start + lo);
            assert(st[n].eps =~= seq![a.start, (b.start + off) as usize]);
            if left {
                assert(st[n].eps[0] == path[1]);
            } else {
                assert(st[n].eps[1] == path[1]);
            }
        } else if i <= l.len() {
            let j = i - 1;
            assert(nfa_step(v.states, cls, p[j], p[j + 1], l[j]));
            assert(path[i] == p[j] + lo);
            assert(path[i + 1] == p[j + 1] + lo);
            if left {
                lemma_alt_left_step(a, b, cls, p[j], p[j + 1], l[j]);
            } else {
                lemma_alt_right_step(a, b, cls, p[j], p[j + 1], l[j]);
            }
        } else {
            assert(path[i] == v.end + lo);
            assert(path[i + 1] == n + 1);
            if left {
                assert(st[a.end as int].eps[a.states[a.end as int].eps.len() as int] == n + 1);
            } else {
                let bs = shift_states(b.states, off as usize);
                assert(st[b.end + off] == bs.update(b.end as int, crate::nfa::with_eps(bs[b.end as int], (n + 1) as usize))[b.end as int]);
                assert(st[b.end + off].eps[b.states[b.end as int].eps.len() as int] == n + 1);
            }
        }
    }
    assert(is_run(st, cls, path, labels));
    lemma_word_of_append(seq![None::<char>] + l, seq![None::<char>]);
    lemma_word_of_append(seq![None::<char>], l);
    lemma_word_of_none();
    assert(word_of(labels) =~= w);
    assert(path[0] == r.start as int);
    assert(path[path.len() - 1] == r.end as int);
}

/// The alternation of two NFAs accepts the words that either accepts. Where the first NFA is the
/// empty one, the alternation is the second NFA, and that alone decides.
pub proof fn lemma_alternation_language(a: NfaView, b: NfaView, r: NfaView, cls: Seq<CharMatcher>, w: Seq<char>)
    requires
        nfa_wf(a),
        nfa_wf(b),
        a.states.len() + b.states.len() + 2 <= usize::MAX,
        nfa_is_empty(a) ==> r == b,
        !nfa_is_empty(a) ==> r.states == alternation_states(a, b)
            && r.start == a.states.len() + b.states.len()
            && r.end == a.states.len() + b.states.len() + 1,
    ensures
        !nfa_is_empty(a) ==> (nfa_accepts(r, cls, w) <==> nfa_accepts(a, cls, w) || nfa_accepts(b, cls, w)),
        nfa_is_empty(a) ==> (nfa_accepts(r, cls, w) <==> nfa_accepts(b, cls, w)),
{
    if !nfa_is_empty(a) {
        if nfa_accepts(r, cls, w) {
            lemma_alt_forward(a, b, r, cls, w);
        }
        if nfa_accepts(a, cls, w) {
            lemma_alt_backward(a, b, r, cls, w, true);
        } else if nfa_accepts(b, cls, w) {
            lemma_alt_backward(a, b, r, cls, w, false);
        }
    }
}


/// The steps of an optional NFA: from the new start state to the start or the end state, and
/// within the NFA.
proof fn lemma_opt_step_back(a: NfaView, cls: Seq<CharMatcher>, s: int, t: int, c: Option<char>)
    requires
        nfa_wf(a),
        nfa_step(zero_or_one_states(a), cls, s, t, c),
    ensures
        s < a.states.len() ==> t < a.states.len() && nfa_step(a.states, cls, s, t, c),
        s == a.states.len() ==> c is None && (t == a.start || t == a.end),
{
    let st = zero_or_one_states(a);
    let n = a.states.len() as int;
    if s < n {
        assert(st[s] == a.states[s]);
        match c {
            None => {
                let j = choose|j: int| 0 <= j < st[s].eps.len() && #[trigger] st[s].eps[j] == t;
                assert(a.states[s].eps[j] < n);
            },
            Some(ch) => {
                let j = choose|j: int|
                    0 <= j < st[s].trans.len() && #[trigger] st[s].trans[j].1 == t
                        && st[s].trans[j].0 < cls.len() && matcher_has(cls[st[s].trans[j].0 as int], ch);
                assert(a.states[s].trans[j].1 < n);
            },
        }
    } else {
        assert(st[s].eps =~= seq![a.start, a.end]);
        assert(st[s].trans.len() == 0);
        match c {
            None => {
                let j = choose|j: int| 0 <= j < st[s].eps.len() && #[trigger] st[s].eps[j] == t;
            },
            Some(ch) => {},
        }
    }
}

/// An optional NFA accepts the empty word and the words the NFA accepts.
pub proof fn lemma_zero_or_one_language(a: NfaView, r: NfaView, cls: Seq<CharMatcher>, w: Seq<char>)
    requires
        nfa_wf(a),
        a.states.len() + 1 <= usize::MAX,
        r.states == zero_or_one_states(a),
        r.start == a.states.len(),
        r.end == a.end,
    ensures
        nfa_accepts(r, cls, w) <==> w == Seq::<char>::empty() || nfa_accepts(a, cls, w),
{
    let n = a.states.len() as int;
    let st = zero_or_one_states(a);
    if nfa_accepts(r, cls, w) {
        let (path, labels) = choose|path: Seq<int>, labels: Seq<Option<char>>|
            #[trigger] is_run(r.states, cls, path, labels) && path[0] == r.start as int
                && path[path.len() - 1] == r.end as int && word_of(labels) == w;
        assert(nfa_step(st, cls, path[0], path[1], labels[0]));
        lemma_opt_step_back(a, cls, path[0], path[1], labels[0]);
        // Behind the new start state the run stays in the NFA.
        assert forall|i: int| 1 <= i < path.len() implies #[trigger] path[i] < n by {
            lemma_opt_stays(a, cls, path, labels, i);
        }
        let inner = path.subrange(1, path.len() as int);
        let li = labels.subrange(1, labels.len() as int);
        assert forall|i: int| 0 <= i < li.len() implies nfa_step(a.states, cls, inner[i], inner[i + 1], #[trigger] li[i]) by {
            assert(nfa_step(st, cls, path[1 + i], path[2 + i], labels[1 + i]));
            assert(path[1 + i] < n);
            lemma_opt_step_back(a, cls, path[1 + i], path[2 + i], labels[1 + i]);
        }
        assert(is_run(a.states, cls, inner, li));
        assert(labels =~= seq![labels[0]] + li);
        lemma_word_of_append(seq![labels[0]], li);
        lemma_word_of_none();
        assert(word_of(labels) =~= word_of(li));
        if path[1] == a.start {
            assert(nfa_accepts(a, cls, w));
        } else {
            // From the end state the NFA has no step, so the run ends there.
            if li.len() > 0 {
                assert(nfa_step(a.states, cls, inner[0], inner[1], li[0]));
            }
            assert(li =~= Seq::<Option<char>>::empty());
            assert(word_of(li) =~= Seq::<char>::empty());
        }
    }
    if w == Seq::<char>::empty() {
        let path = seq![n, a.end as int];
        let labels = seq![None::<char>];
        assert(st[n].eps[1] == a.end);
        assert(nfa_step(st, cls, path[0], path[1], labels[0]));
        assert(is_run(st, cls, path, labels));
        lemma_word_of_none();
    } else if nfa_accepts(a, cls, w) {
        let (p, l) = choose|path: Seq<int>, labels: Seq<Option<char>>|
            #[trigger] is_run(a.states, cls, path, labels) && path[0] == a.start as int
                && path[path.len() - 1] == a.end as int && word_of(labels) == w;
        let path = seq![n] + p;
        let labels = seq![None::<char>] + l;
        assert forall|i: int| 0 <= i < labels.len() implies nfa_step(st, cls, path[i], path[i + 1], #[trigger] labels[i]) by {
            if i == 0 {
                assert(st[n].eps[0] == a.start);
            } else {
                assert(nfa_step(a.states, cls, p[i - 1], p[i], l[i - 1]));
                assert(st[p[i - 1]] == a.states[p[i - 1]]);
                lemma_opt_left_step(a, cls, p[i - 1], p[i], l[i - 1]);
            }
        }
        assert(is_run(st, cls, path, labels));
        lemma_word_of_append(seq![None::<char>], l);
        lemma_word_of_none();
        assert(word_of(labels) =~= w);
    }
}

/// A step of an NFA is one of the optional NFA.
proof fn lemma_opt_left_step(a: NfaView, cls: Seq<CharMatcher>, s: int, t: int, c: Option<char>)
    requires
        nfa_wf(a),
        nfa_step(a.states, cls, s, t, c),
    ensures
        nfa_step(zero_or_one_states(a), cls, s, t, c),
{
    let st = zero_or_one_states(a);
    assert(st[s] == a.states[s]);
}

/// A run of an optional NFA stays in the NFA behind its first step.
proof fn lemma_opt_stays(a: NfaView, cls: Seq<CharMatcher>, path: Seq<int>, labels: Seq<Option<char>>, i: int)
    requires
        nfa_wf(a),
        is_run(zero_or_one_states(a), cls, path, labels),
        path[0] == a.states.len(),
        1 <= i < path.len(),
    ensures
        path[i] < a.states.len(),
    decreases i,
{
    assert(nfa_step(zero_or_one_states(a), cls, path[i - 1], path[i], labels[i - 1]));
    if i > 1 {
        lemma_opt_stays(a, cls, path, labels, i - 1);
    }
    lemma_opt_step_back(a, cls, path[i - 1], path[i], labels[i - 1]);
}


/// A run from `x` to `y` followed by a run from `y` to `z` is a run from `x` to `z` reading
/// both words.
pub proof fn lemma_reads_concat(
    states: Seq<NfaStateView>,
    cls: Seq<CharMatcher>,
    x: int,
    w1: Seq<char>,
    y: int,
    w2: Seq<char>,
    z: int,
)
    requires
        nfa_reads(states, cls, x, w1, y),
        nfa_reads(states, cls, y, w2, z),
    ensures
        nfa_reads(states, cls, x, w1 + w2, z),
{
    let (p1, l1) = choose|path: Seq<int>, labels: Seq<Option<char>>|
        #[trigger] is_run(states, cls, path, labels) && path[0] == x && path[path.len() - 1] == y
            && word_of(labels) == w1;
    let (p2, l2) = choose|path: Seq<int>, labels: Seq<Option<char>>|
        #[trigger] is_run(states, cls, path, labels) && path[0] == y && path[path.len() - 1] == z
            && word_of(labels) == w2;
    let path = p1 + p2.subrange(1, p2.len() as int);
    let labels = l1 + l2;
    assert forall|i: int| 0 <= i < labels.len() implies nfa_step(states, cls, path[i], path[i + 1], #[trigger] labels[i]) by {
        if i < l1.len() {
            assert(nfa_step(states, cls, p1[i], p1[i + 1], l1[i]));
        } else {
            let j = i - l1.len();
            assert(nfa_step(states, cls, p2[j], p2[j + 1], l2[j]));
            assert(path[i] == p2[j]);
            assert(path[i + 1] == p2[j + 1]);
        }
    }
    lemma_word_of_append(l1, l2);
    assert(is_run(states, cls, path, labels));
    assert(path[path.len() - 1] == z);
}

/// A single step is a run reading the character of the step, if any.
pub proof fn lemma_reads_step(states: Seq<NfaStateView>, cls: Seq<CharMatcher>, s: int, t: int, c: Option<char>)
    requires
        nfa_step(states, cls, s, t, c),
    ensures
        nfa_reads(states, cls, s, word_of(seq![c]), t),
{
    let path = seq![s, t];
    let labels = seq![c];
    assert(nfa_step(states, cls, path[0], path[1], labels[0]));
    assert(is_run(states, cls, path, labels));
}

/// A run of an NFA whose steps are all steps of a second NFA is a run of the second.
proof fn lemma_reads_lift(
    from: Seq<NfaStateView>,
    to: Seq<NfaStateView>,
    cls: Seq<CharMatcher>,
    x: int,
    w: Seq<char>,
    y: int,
)
    requires
        nfa_reads(from, cls, x, w, y),
        forall|s: int, t: int, c: Option<char>| #[trigger] nfa_step(from, cls, s, t, c) ==> nfa_step(to, cls, s, t, c),
    ensures
        nfa_reads(to, cls, x, w, y),
{
    let (p, l) = choose|path: Seq<int>, labels: Seq<Option<char>>|
        #[trigger] is_run(from, cls, path, labels) && path[0] == x && path[path.len() - 1] == y
            && word_of(labels) == w;
    assert forall|i: int| 0 <= i < l.len() implies nfa_step(to, cls, p[i], p[i + 1], #[trigger] l[i]) by {
        assert(nfa_step(from, cls, p[i], p[i + 1], l[i]));
    }
    assert(is_run(to, cls, p, l));
}

/// The states of a repeated NFA, with or without the step that skips the NFA.
pub open spec fn loop_states(a: NfaView, plus: bool) -> Seq<NfaStateView> {
    if plus {
        one_or_more_states(a)
    } else {
        zero_or_more_states(a)
    }
}

/// The steps of a repeated NFA: within the NFA, from its end state to the new end state or back
/// to its start state, and from the new start state to the start state, or, without `plus`, to
/// the end state.
proof fn lemma_loop_step_back(a: NfaView, plus: bool, cls: Seq<CharMatcher>, s: int, t: int, c: Option<char>)
    requires
        nfa_wf(a),
        a.states.len() + 2 <= usize::MAX,
        nfa_step(loop_states(a, plus), cls, s, t, c),
    ensures
        s < a.states.len() && s != a.end ==> t < a.states.len() && nfa_step(a.states, cls, s, t, c),
        s == a.end ==> c is None && (t == a.states.len() + 1 || t == a.start),
        s == a.states.len() ==> c is None && (t == a.start || (!plus && t == a.end)),
        s < a.states.len() + 1,
{
    let st = loop_states(a, plus);
    let n = a.states.len() as int;
    assert(st.len() == n + 2);
    if s < n && s != a.end {
        assert(st[s] == a.states[s]);
        match c {
            None => {
                let j = choose|j: int| 0 <= j < st[s].eps.len() && #[trigger] st[s].eps[j] == t;
                assert(a.states[s].eps[j] < n);
            },
            Some(ch) => {
                let j = choose|j: int|
                    0 <= j < st[s].trans.len() && #[trigger] st[s].trans[j].1 == t
                        && st[s].trans[j].0 < cls.len() && matcher_has(cls[st[s].trans[j].0 as int], ch);
                assert(a.states[s].trans[j].1 < n);
            },
        }
    }
    if s == a.end {
        assert(st[s].eps =~= seq![(n + 1) as usize, a.start]);
        assert(st[s].trans.len() == 0);
        match c {
            None => {
                let j = choose|j: int| 0 <= j < st[s].eps.len() && #[trigger] st[s].eps[j] == t;
            },
            Some(ch) => {},
        }
    }
    if s == n {
        if plus {
            assert(st[s].eps =~= seq![a.start]);
        } else {
            assert(st[s].eps =~= seq![a.start, a.end]);
        }
        assert(st[s].trans.len() == 0);
        match c {
            None => {
                let j = choose|j: int| 0 <= j < st[s].eps.len() && #[trigger] st[s].eps[j] == t;
            },
            Some(ch) => {},
        }
    }
    if s == n + 1 {
        assert(st[s].eps.len() == 0);
        assert(st[s].trans.len() == 0);
    }
}

/// The steps of an NFA are steps of the repeated NFA.
proof fn lemma_loop_lift(a: NfaView, plus: bool, cls: Seq<CharMatcher>)
    requires
        nfa_wf(a),
    ensures
        forall|s: int, t: int, c: Option<char>| #[trigger] nfa_step(a.states, cls, s, t, c) ==> nfa_step(loop_states(a, plus), cls, s, t, c),
{
    let st = loop_states(a, plus);
    assert forall|s: int, t: int, c: Option<char>| #[trigger] nfa_step(a.states, cls, s, t, c) implies nfa_step(st, cls, s, t, c) by {
        assert(st[s].trans == a.states[s].trans);
        match c {
            None => {
                let j = choose|j: int| 0 <= j < a.states[s].eps.len() && #[trigger] a.states[s].eps[j] == t;
                assert(s != a.end);
                assert(st[s] == a.states[s]);
                assert(st[s].eps[j] == t);
            },
            Some(ch) => {
                let j = choose|j: int|
                    0 <= j < a.states[s].trans.len() && #[trigger] a.states[s].trans[j].1 == t
                        && a.states[s].trans[j].0 < cls.len() && matcher_has(cls[a.states[s].trans[j].0 as int], ch);
                assert(st[s].trans[j].1 == t);
            },
        }
    }
}

/// Words that an NFA accepts, one after the other, lead from its start state to the new end
/// state of the repeated NFA.
proof fn lemma_loop_backward(a: NfaView, plus: bool, cls: Seq<CharMatcher>, ws: Seq<Seq<char>>)
    requires
        nfa_wf(a),
        a.states.len() + 2 <= usize::MAX,
        ws.len() >= 1,
        forall|i: int| 0 <= i < ws.len() ==> nfa_accepts(a, cls, #[trigger] ws[i]),
    ensures
        nfa_reads(loop_states(a, plus), cls, a.start as int, ws.flatten(), a.states.len() + 1int),
    decreases ws.len(),
{
    let st = loop_states(a, plus);
    let n = a.states.len() as int;
    lemma_loop_lift(a, plus, cls);
    assert(nfa_accepts(a, cls, ws[0]));
    lemma_reads_lift(a.states, st, cls, a.start as int, ws[0], a.end as int);
    assert(st[a.end as int].eps =~= seq![(n + 1) as usize, a.start]);
    lemma_word_of_none();
    assert(ws.flatten() == ws[0] + ws.drop_first().flatten());
    if ws.len() == 1 {
        assert(st[a.end as int].eps[0] == n + 1);
        lemma_reads_step(st, cls, a.end as int, n + 1, None);
        lemma_reads_concat(st, cls, a.start as int, ws[0], a.end as int, Seq::empty(), n + 1);
        assert(ws.drop_first() =~= Seq::<Seq<char>>::empty());
        assert(ws.drop_first().flatten() =~= Seq::<char>::empty());
        assert(ws[0] + Seq::<char>::empty() =~= ws[0]);
    } else {
        let rest = ws.drop_first();
        assert forall|i: int| 0 <= i < rest.len() implies nfa_accepts(a, cls, #[trigger] rest[i]) by {
            assert(rest[i] == ws[i + 1]);
        }
        lemma_loop_backward(a, plus, cls, rest);
        assert(st[a.end as int].eps[1] == a.start);
        lemma_reads_step(st, cls, a.end as int, a.start as int, None);
        lemma_reads_concat(st, cls, a.end as int, Seq::empty(), a.start as int, rest.flatten(), n + 1);
        assert(Seq::<char>::empty() + rest.flatten() =~= rest.flatten());
        lemma_reads_concat(st, cls, a.start as int, ws[0], a.end as int, rest.flatten(), n + 1);
    }
}

/// The first index from `from` on at which a path of a repeated NFA is at the end state of the
/// NFA or outside it.
proof fn lemma_first_end(p: Seq<int>, n: int, e: int, from: int) -> (k: int)
    requires
        0 <= from < p.len(),
        !(0 <= p[p.len() - 1] < n && p[p.len() - 1] != e),
    ensures
        from <= k < p.len(),
        !(0 <= p[k] < n && p[k] != e),
        forall|i: int| from <= i < k ==> 0 <= #[trigger] p[i] < n && p[i] != e,
    decreases p.len() - from,
{
    if !(0 <= p[from] < n && p[from] != e) {
        from
    } else {
        lemma_first_end(p, n, e, from + 1)
    }
}

/// A run of a repeated NFA from the start state of the NFA to the new end state reads words the
/// NFA accepts, one after the other.
proof fn lemma_loop_forward(
    a: NfaView,
    plus: bool,
    cls: Seq<CharMatcher>,
    path: Seq<int>,
    labels: Seq<Option<char>>,
    i: int,
)
    requires
        nfa_wf(a),
        a.states.len() + 2 <= usize::MAX,
        is_run(loop_states(a, plus), cls, path, labels),
        0 <= i < path.len(),
        path[i] == a.start,
        path[path.len() - 1] == a.states.len() + 1,
    ensures
        exists|ws: Seq<Seq<char>>|
            ws.len() >= 1 && (forall|j: int| 0 <= j < ws.len() ==> nfa_accepts(a, cls, #[trigger] ws[j]))
                && ws.flatten() == word_of(labels.subrange(i, labels.len() as int)),
    decreases path.len() - i,
{
    let st = loop_states(a, plus);
    let n = a.states.len() as int;
    let e = a.end as int;
    let k = lemma_first_end(path, n, e, i);
    // The run reaches the end state of the NFA before it leaves the NFA.
    if k > i {
        assert(nfa_step(st, cls, path[k - 1], path[k], labels[k - 1]));
        lemma_loop_step_back(a, plus, cls, path[k - 1], path[k], labels[k - 1]);
    }
    assert(path[k] == e);
    // The run up to there is a run of the NFA.
    let seg = path.subrange(i, k + 1);
    let ls = labels.subrange(i, k);
    assert forall|j: int| 0 <= j < ls.len() implies nfa_step(a.states, cls, seg[j], seg[j + 1], #[trigger] ls[j]) by {
        assert(nfa_step(st, cls, path[i + j], path[i + j + 1], labels[i + j]));
        lemma_loop_step_back(a, plus, cls, path[i + j], path[i + j + 1], labels[i + j]);
    }
    assert(is_run(a.states, cls, seg, ls));
    let w0 = word_of(ls);
    assert(nfa_accepts(a, cls, w0));
    // From the end state the run leaves to the new end state or goes back to the start state.
    assert(k < path.len() - 1);
    assert(nfa_step(st, cls, path[k], path[k + 1], labels[k]));
    lemma_loop_step_back(a, plus, cls, path[k], path[k + 1], labels[k]);
    let rest = labels.subrange(k + 1, labels.len() as int);
    assert(labels.subrange(i, labels.len() as int) =~= ls + seq![labels[k]] + rest);
    lemma_word_of_append(ls + seq![labels[k]], rest);
    lemma_word_of_append(ls, seq![labels[k]]);
    lemma_word_of_none();
    assert(word_of(labels.subrange(i, labels.len() as int)) =~= w0 + word_of(rest));
    if path[k + 1] == n + 1 {
        if k + 1 < path.len() - 1 {
            assert(nfa_step(st, cls, path[k + 1], path[k + 2], labels[k + 1]));
            lemma_loop_step_back(a, plus, cls, path[k + 1], path[k + 2], labels[k + 1]);
        }
        assert(rest =~= Seq::<Option<char>>::empty());
        assert(word_of(rest) =~= Seq::<char>::empty());
        let ws = seq![w0];
        assert(ws.drop_first() =~= Seq::<Seq<char>>::empty());
        assert(ws.flatten() == ws[0] + ws.drop_first().flatten());
        assert(ws.flatten() =~= w0 + word_of(rest));
        assert(forall|j: int| 0 <= j < ws.len() ==> nfa_accepts(a, cls, #[trigger] ws[j]));
    } else {
        assert(path[k + 1] == a.start);
        lemma_loop_forward(a, plus, cls, path, labels, k + 1);
        let ws1 = choose|ws: Seq<Seq<char>>|
            ws.len() >= 1 && (forall|j: int| 0 <= j < ws.len() ==> nfa_accepts(a, cls, #[trigger] ws[j]))
                && ws.flatten() == word_of(labels.subrange(k + 1, labels.len() as int));
        let ws = seq![w0] + ws1;
        assert(ws.drop_first() =~= ws1);
        assert(ws.flatten() == ws[0] + ws.drop_first().flatten());
        assert forall|j: int| 0 <= j < ws.len() implies nfa_accepts(a, cls, #[trigger] ws[j]) by {
            if j > 0 {
                assert(ws[j] == ws1[j - 1]);
            }
        }
        assert(ws.flatten() =~= w0 + word_of(rest));
    }
}

/// A repeated NFA accepts the words made of one or more words the NFA accepts.
pub proof fn lemma_one_or_more_language(a: NfaView, r: NfaView, cls: Seq<CharMatcher>, w: Seq<char>)
    requires
        nfa_wf(a),
        a.states.len() + 2 <= usize::MAX,
        r.states == one_or_more_states(a),
        r.start == a.states.len(),
        r.end == a.states.len() + 1,
    ensures
        nfa_accepts(r, cls, w) <==> exists|ws: Seq<Seq<char>>|
            ws.len() >= 1 && (forall|j: int| 0 <= j < ws.len() ==> nfa_accepts(a, cls, #[trigger] ws[j]))
                && ws.flatten() == w,
{
    lemma_loop_language(a, true, r, cls, w);
}

/// An optionally repeated NFA accepts the words made of any number of words the NFA accepts.
pub proof fn lemma_zero_or_more_language(a: NfaView, r: NfaView, cls: Seq<CharMatcher>, w: Seq<char>)
    requires
        nfa_wf(a),
        a.states.len() + 2 <= usize::MAX,
        r.states == zero_or_more_states(a),
        r.start == a.states.len(),
        r.end == a.states.len() + 1,
    ensures
        nfa_accepts(r, cls, w) <==> exists|ws: Seq<Seq<char>>|
            (forall|j: int| 0 <= j < ws.len() ==> nfa_accepts(a, cls, #[trigger] ws[j])) && ws.flatten() == w,
{
    lemma_loop_language(a, false, r, cls, w);
}

/// With `plus`, at least one word.
pub open spec fn plus_or_empty(plus: bool, ws: Seq<Seq<char>>) -> bool {
    plus ==> ws.len() >= 1
}

/// The words of a repeated NFA, with or without the step that skips it.
proof fn lemma_loop_language(a: NfaView, plus: bool, r: NfaView, cls: Seq<CharMatcher>, w: Seq<char>)
    requires
        nfa_wf(a),
        a.states.len() + 2 <= usize::MAX,
        r.states == loop_states(a, plus),
        r.start == a.states.len(),
        r.end == a.states.len() + 1,
    ensures
        nfa_accepts(r, cls, w) <==> exists|ws: Seq<Seq<char>>|
            plus_or_empty(plus, ws) && (forall|j: int| 0 <= j < ws.len() ==> nfa_accepts(a, cls, #[trigger] ws[j]))
                && ws.flatten() == w,
{
    let st = loop_states(a, plus);
    let n = a.states.len() as int;
    lemma_word_of_none();
    if nfa_accepts(r, cls, w) {
        let (path, labels) = choose|path: Seq<int>, labels: Seq<Option<char>>|
            #[trigger] is_run(r.states, cls, path, labels) && path[0] == r.start as int
                && path[path.len() - 1] == r.end as int && word_of(labels) == w;
        assert(nfa_step(st, cls, path[0], path[1], labels[0]));
        lemma_loop_step_back(a, plus, cls, path[0], path[1], labels[0]);
        assert(labels =~= seq![labels[0]] + labels.subrange(1, labels.len() as int));
        lemma_word_of_append(seq![labels[0]], labels.subrange(1, labels.len() as int));
        if path[1] == a.start {
            lemma_loop_forward(a, plus, cls, path, labels, 1);
            let ws = choose|ws: Seq<Seq<char>>|
                ws.len() >= 1 && (forall|j: int| 0 <= j < ws.len() ==> nfa_accepts(a, cls, #[trigger] ws[j]))
                    && ws.flatten() == word_of(labels.subrange(1, labels.len() as int));
            assert(plus_or_empty(plus, ws));
            assert(ws.flatten() == w);
        } else {
            // Without `plus` the run may go to the end state of the NFA first.
            assert(path[1] == a.end);
            assert(nfa_step(st, cls, path[1], path[2], labels[1]));
            lemma_loop_step_back(a, plus, cls, path[1], path[2], labels[1]);
            assert(labels.subrange(1, labels.len() as int) =~= seq![labels[1]] + labels.subrange(2, labels.len() as int));
            lemma_word_of_append(seq![labels[1]], labels.subrange(2, labels.len() as int));
            if path[2] == n + 1 {
                if path.len() > 3 {
                    assert(nfa_step(st, cls, path[2], path[3], labels[2]));
                    lemma_loop_step_back(a, plus, cls, path[2], path[3], labels[2]);
                }
                assert(labels.subrange(2, labels.len() as int) =~= Seq::<Option<char>>::empty());
                assert(word_of(Seq::<Option<char>>::empty()) =~= Seq::<char>::empty());
                let ws = Seq::<Seq<char>>::empty();
                assert(ws.flatten() =~= w);
                assert(plus_or_empty(plus, ws));
            } else {
                lemma_loop_forward(a, plus, cls, path, labels, 2);
                let ws = choose|ws: Seq<Seq<char>>|
                    ws.len() >= 1 && (forall|j: int| 0 <= j < ws.len() ==> nfa_accepts(a, cls, #[trigger] ws[j]))
                        && ws.flatten() == word_of(labels.subrange(2, labels.len() as int));
                assert(plus_or_empty(plus, ws));
                assert(ws.flatten() == w);
            }
        }
    }
    if exists|ws: Seq<Seq<char>>|
        plus_or_empty(plus, ws) && (forall|j: int| 0 <= j < ws.len() ==> nfa_accepts(a, cls, #[trigger] ws[j]))
            && ws.flatten() == w {
        let ws = choose|ws: Seq<Seq<char>>|
            plus_or_empty(plus, ws) && (forall|j: int| 0 <= j < ws.len() ==> nfa_accepts(a, cls, #[trigger] ws[j]))
                && ws.flatten() == w;
        if ws.len() >= 1 {
            lemma_loop_backward(a, plus, cls, ws);
            assert(st[n].eps[0] == a.start);
            lemma_reads_step(st, cls, n, a.start as int, None);
            lemma_reads_concat(st, cls, n, Seq::empty(), a.start as int, ws.flatten(), n + 1);
            assert(Seq::<char>::empty() + ws.flatten() =~= w);
        } else {
            assert(!plus);
            assert(ws.flatten() =~= Seq::<char>::empty());
            assert(st[n].eps[1] == a.end);
            lemma_reads_step(st, cls, n, a.end as int, None);
            assert(st[a.end as int].eps[0] == n + 1);
            lemma_reads_step(st, cls, a.end as int, n + 1, None);
            lemma_reads_concat(st, cls, n, Seq::empty(), a.end as int, Seq::empty(), n + 1);
            assert(Seq::<char>::empty() + Seq::<char>::empty() =~= w);
        }
    }
}

} // verus!
