//! The words the NFAs built from regular expression trees accept: one class, copies one after
//! the other, repetitions, alternatives and sequences.
use vstd::prelude::*;
use crate::char_matcher::{matcher_has, CharMatcher};
use crate::character_class::{lemma_registry_extends, registry_extends, KeyView};
use crate::nfa::{alternation_states, concat_states, nfa_is_empty, nfa_wf, one_or_more_states, zero_or_more_states, zero_or_one_states, NfaStateView, NfaView};
use crate::nfa_language::{
    is_run, lemma_alternation_language, lemma_concat_language, lemma_empty_language, lemma_one_or_more_language,
    lemma_zero_or_more_language, lemma_zero_or_one_language, nfa_accepts, nfa_step, word_of,
};
use crate::regex_ast::RepetitionOp;
use crate::regex_tree::{
    all_build_empty_nfa, alternatives_accept, builds_empty_nfa, count_allowed, sequence_accepts,
    sequence_language, sequence_refusal, tree_accepts, tree_language, RegexTree,
};

verus! {

/// The NFA of one character class: a start state with a transition on the class to the end
/// state.
pub open spec fn class_nfa(cc: usize) -> NfaView {
    NfaView {
        states: seq![
            NfaStateView { id: 0, eps: Seq::empty(), trans: seq![(cc, 1usize)] },
            NfaStateView { id: 1, eps: Seq::empty(), trans: Seq::empty() },
        ],
        start: 0,
        end: 1,
    }
}

/// The NFA of one character class reads one character of the class.
pub proof fn lemma_class_language(cc: usize, cls: Seq<CharMatcher>, w: Seq<char>)
    ensures
        nfa_accepts(class_nfa(cc), cls, w) <==> w.len() == 1 && cc < cls.len() && matcher_has(cls[cc as int], w[0]),
{
    let v = class_nfa(cc);
    if nfa_accepts(v, cls, w) {
        let (path, labels) = choose|path: Seq<int>, labels: Seq<Option<char>>|
            #[trigger] is_run(v.states, cls, path, labels) && path[0] == v.start as int
                && path[path.len() - 1] == v.end as int && word_of(labels) == w;
        assert(labels.len() >= 1);
        assert(nfa_step(v.states, cls, path[0], path[1], labels[0]));
        assert(path[1] == 1 && labels[0] is Some);
        if labels.len() >= 2 {
            assert(nfa_step(v.states, cls, path[1], path[2], labels[1]));
        }
        assert(labels.len() == 1);
        let c = labels[0]->0;
        assert(labels.drop_last() =~= Seq::<Option<char>>::empty());
        assert(word_of(labels.drop_last()) =~= Seq::<char>::empty());
        assert(w =~= seq![c]);
    }
    if w.len() == 1 && cc < cls.len() && matcher_has(cls[cc as int], w[0]) {
        let c = w[0];
        let path = seq![0int, 1int];
        let labels = seq![Some(c)];
        assert(v.states[0].trans[0] == (cc, 1usize));
        assert(v.states[0].trans[0].1 == 1 && matcher_has(cls[v.states[0].trans[0].0 as int], c));
        assert(nfa_step(v.states, cls, 0, 1, Some(c)));
        assert(is_run(v.states, cls, path, labels));
        assert(labels.drop_last() =~= Seq::<Option<char>>::empty());
        assert(word_of(labels.drop_last()) =~= Seq::<char>::empty());
        assert(word_of(labels) =~= w);
    }
}

/// `a` followed by `n` copies of `b` reads `w`.
pub open spec fn copies_accept(a: NfaView, b: NfaView, n: nat, cls: Seq<CharMatcher>, w: Seq<char>) -> bool {
    exists|w0: Seq<char>, ws: Seq<Seq<char>>|
        ws.len() == n && #[trigger] nfa_accepts(a, cls, w0)
            && (forall|j: int| 0 <= j < ws.len() ==> nfa_accepts(b, cls, #[trigger] ws[j]))
            && w == w0 + #[trigger] ws.flatten()
}

/// No copies read what `a` reads.
pub proof fn lemma_copies_zero(a: NfaView, b: NfaView, cls: Seq<CharMatcher>, w: Seq<char>)
    ensures
        copies_accept(a, b, 0, cls, w) <==> nfa_accepts(a, cls, w),
{
    let ws = Seq::<Seq<char>>::empty();
    assert(ws.flatten() =~= Seq::<char>::empty());
    assert(w + ws.flatten() =~= w);
    if copies_accept(a, b, 0, cls, w) {
        let (w0, ws2) = choose|w0: Seq<char>, ws2: Seq<Seq<char>>|
            ws2.len() == 0 && #[trigger] nfa_accepts(a, cls, w0)
                && (forall|j: int| 0 <= j < ws2.len() ==> nfa_accepts(b, cls, #[trigger] ws2[j]))
                && w == w0 + #[trigger] ws2.flatten();
        assert(ws2 =~= ws);
        assert(w0 + ws.flatten() =~= w0);
    }
}

/// Concatenating one more copy of `b` to `a` followed by `n` copies gives `n + 1` copies.
pub proof fn lemma_copies_step(a0: NfaView, a: NfaView, b: NfaView, r: NfaView, n: nat, cls: Seq<CharMatcher>, w: Seq<char>)
    requires
        nfa_wf(a),
        nfa_wf(b),
        a.states.len() + b.states.len() <= usize::MAX,
        nfa_is_empty(a) ==> r == b,
        !nfa_is_empty(a) ==> r.states == concat_states(a, b) && r.start == a.start
            && r.end == b.end + a.states.len(),
        forall|x: Seq<char>| #[trigger] nfa_accepts(a, cls, x) <==> copies_accept(a0, b, n, cls, x),
    ensures
        nfa_accepts(r, cls, w) <==> copies_accept(a0, b, n + 1, cls, w),
{
    lemma_concat_language(a, b, r, cls, w);
    if nfa_accepts(r, cls, w) {
        let (w1, w2) = choose|w1: Seq<char>, w2: Seq<char>|
            w == w1 + w2 && #[trigger] nfa_accepts(a, cls, w1) && #[trigger] nfa_accepts(b, cls, w2);
        assert(copies_accept(a0, b, n, cls, w1));
        let (w0, ws) = choose|w0: Seq<char>, ws: Seq<Seq<char>>|
            ws.len() == n && #[trigger] nfa_accepts(a0, cls, w0)
                && (forall|j: int| 0 <= j < ws.len() ==> nfa_accepts(b, cls, #[trigger] ws[j]))
                && w1 == w0 + #[trigger] ws.flatten();
        let ws2 = ws.push(w2);
        ws.lemma_flatten_push(w2);
        assert(w == w0 + ws2.flatten());
        assert forall|j: int| 0 <= j < ws2.len() implies nfa_accepts(b, cls, #[trigger] ws2[j]) by {
            if j < ws.len() {
                assert(ws2[j] == ws[j]);
            }
        }
        assert(copies_accept(a0, b, n + 1, cls, w));
    }
    if copies_accept(a0, b, n + 1, cls, w) {
        let (w0, ws2) = choose|w0: Seq<char>, ws2: Seq<Seq<char>>|
            ws2.len() == n + 1 && #[trigger] nfa_accepts(a0, cls, w0)
                && (forall|j: int| 0 <= j < ws2.len() ==> nfa_accepts(b, cls, #[trigger] ws2[j]))
                && w == w0 + #[trigger] ws2.flatten();
        let ws = ws2.drop_last();
        let w2 = ws2.last();
        assert(ws.push(w2) =~= ws2);
        ws.lemma_flatten_push(w2);
        let w1 = w0 + ws.flatten();
        assert forall|j: int| 0 <= j < ws.len() implies nfa_accepts(b, cls, #[trigger] ws[j]) by {
            assert(ws[j] == ws2[j]);
        }
        assert(copies_accept(a0, b, n, cls, w1));
        assert(nfa_accepts(a, cls, w1));
        assert(nfa_accepts(b, cls, ws2[n as int]));
        assert(w =~= w1 + w2);
    }
}

/// `w` splits into words that `a` reads, as many as the operator allows.
pub open spec fn repeats_accept(a: NfaView, op: RepetitionOp, cls: Seq<CharMatcher>, w: Seq<char>) -> bool {
    exists|ws: Seq<Seq<char>>|
        count_allowed(op, ws.len()) && #[trigger] ws.flatten() == w
            && forall|j: int| 0 <= j < ws.len() ==> nfa_accepts(a, cls, #[trigger] ws[j])
}

/// `n` copies of `b` behind the empty NFA read the words made of `n` words that `b` reads.
pub proof fn lemma_copies_from_empty(e: NfaView, b: NfaView, n: nat, cls: Seq<CharMatcher>, w: Seq<char>)
    requires
        nfa_is_empty(e),
    ensures
        copies_accept(e, b, n, cls, w) <==> exists|ws: Seq<Seq<char>>|
            ws.len() == n && #[trigger] ws.flatten() == w
                && forall|j: int| 0 <= j < ws.len() ==> nfa_accepts(b, cls, #[trigger] ws[j]),
{
    lemma_empty_language(e, cls, Seq::empty());
    if copies_accept(e, b, n, cls, w) {
        let (w0, ws) = choose|w0: Seq<char>, ws: Seq<Seq<char>>|
            ws.len() == n && #[trigger] nfa_accepts(e, cls, w0)
                && (forall|j: int| 0 <= j < ws.len() ==> nfa_accepts(b, cls, #[trigger] ws[j]))
                && w == w0 + #[trigger] ws.flatten();
        lemma_empty_language(e, cls, w0);
        assert(w =~= ws.flatten());
    }
    if exists|ws: Seq<Seq<char>>|
        ws.len() == n && #[trigger] ws.flatten() == w
            && forall|j: int| 0 <= j < ws.len() ==> nfa_accepts(b, cls, #[trigger] ws[j]) {
        let ws = choose|ws: Seq<Seq<char>>|
            ws.len() == n && #[trigger] ws.flatten() == w
                && forall|j: int| 0 <= j < ws.len() ==> nfa_accepts(b, cls, #[trigger] ws[j]);
        assert(w =~= Seq::<char>::empty() + ws.flatten());
    }
}

/// The optional NFA reads no word or one word of the NFA.
pub proof fn lemma_zero_or_one_repeats(a: NfaView, r: NfaView, cls: Seq<CharMatcher>, w: Seq<char>)
    requires
        nfa_wf(a),
        a.states.len() + 1 <= usize::MAX,
        r.states == zero_or_one_states(a),
        r.start == a.states.len(),
        r.end == a.end,
    ensures
        nfa_accepts(r, cls, w) <==> repeats_accept(a, RepetitionOp::ZeroOrOne, cls, w),
{
    lemma_zero_or_one_language(a, r, cls, w);
    let none = Seq::<Seq<char>>::empty();
    let one = seq![w];
    assert(none.flatten() =~= Seq::<char>::empty());
    one.lemma_flatten_one_element();
    if w == Seq::<char>::empty() {
        assert(count_allowed(RepetitionOp::ZeroOrOne, none.len()) && none.flatten() == w);
    } else if nfa_accepts(a, cls, w) {
        assert(one[0] == w);
        assert(count_allowed(RepetitionOp::ZeroOrOne, one.len()) && one.flatten() == w);
    }
    if repeats_accept(a, RepetitionOp::ZeroOrOne, cls, w) {
        let ws = choose|ws: Seq<Seq<char>>|
            count_allowed(RepetitionOp::ZeroOrOne, ws.len()) && #[trigger] ws.flatten() == w
                && forall|j: int| 0 <= j < ws.len() ==> nfa_accepts(a, cls, #[trigger] ws[j]);
        if ws.len() == 0 {
            assert(ws =~= none);
        } else {
            ws.lemma_flatten_one_element();
            assert(nfa_accepts(a, cls, ws[0]));
        }
    }
}

/// The optionally repeated NFA reads any number of words of the NFA.
pub proof fn lemma_zero_or_more_repeats(a: NfaView, r: NfaView, cls: Seq<CharMatcher>, w: Seq<char>)
    requires
        nfa_wf(a),
        a.states.len() + 2 <= usize::MAX,
        r.states == zero_or_more_states(a),
        r.start == a.states.len(),
        r.end == a.states.len() + 1,
    ensures
        nfa_accepts(r, cls, w) <==> repeats_accept(a, RepetitionOp::ZeroOrMore, cls, w),
{
    lemma_zero_or_more_language(a, r, cls, w);
    if nfa_accepts(r, cls, w) {
        let ws = choose|ws: Seq<Seq<char>>|
            (forall|j: int| 0 <= j < ws.len() ==> nfa_accepts(a, cls, #[trigger] ws[j])) && ws.flatten() == w;
        assert(count_allowed(RepetitionOp::ZeroOrMore, ws.len()));
    }
    if repeats_accept(a, RepetitionOp::ZeroOrMore, cls, w) {
        let ws = choose|ws: Seq<Seq<char>>|
            count_allowed(RepetitionOp::ZeroOrMore, ws.len()) && #[trigger] ws.flatten() == w
                && forall|j: int| 0 <= j < ws.len() ==> nfa_accepts(a, cls, #[trigger] ws[j]);
        assert((forall|j: int| 0 <= j < ws.len() ==> nfa_accepts(a, cls, #[trigger] ws[j])) && ws.flatten() == w);
    }
}

/// The repeated NFA reads one or more words of the NFA.
pub proof fn lemma_one_or_more_repeats(a: NfaView, r: NfaView, cls: Seq<CharMatcher>, w: Seq<char>)
    requires
        nfa_wf(a),
        a.states.len() + 2 <= usize::MAX,
        r.states == one_or_more_states(a),
        r.start == a.states.len(),
        r.end == a.states.len() + 1,
    ensures
        nfa_accepts(r, cls, w) <==> repeats_accept(a, RepetitionOp::OneOrMore, cls, w),
{
    lemma_one_or_more_language(a, r, cls, w);
    if nfa_accepts(r, cls, w) {
        let ws = choose|ws: Seq<Seq<char>>|
            ws.len() >= 1 && (forall|j: int| 0 <= j < ws.len() ==> nfa_accepts(a, cls, #[trigger] ws[j])) && ws.flatten() == w;
        assert(count_allowed(RepetitionOp::OneOrMore, ws.len()));
    }
    if repeats_accept(a, RepetitionOp::OneOrMore, cls, w) {
        let ws = choose|ws: Seq<Seq<char>>|
            count_allowed(RepetitionOp::OneOrMore, ws.len()) && #[trigger] ws.flatten() == w
                && forall|j: int| 0 <= j < ws.len() ==> nfa_accepts(a, cls, #[trigger] ws[j]);
        assert(ws.len() >= 1 && (forall|j: int| 0 <= j < ws.len() ==> nfa_accepts(a, cls, #[trigger] ws[j])) && ws.flatten() == w);
    }
}

/// Exactly `c` copies behind the empty NFA read `c` words of the NFA.
pub proof fn lemma_exactly_repeats(e: NfaView, b: NfaView, c: u32, cls: Seq<CharMatcher>, w: Seq<char>)
    requires
        nfa_is_empty(e),
    ensures
        copies_accept(e, b, c as nat, cls, w) <==> repeats_accept(b, RepetitionOp::Exactly(c), cls, w),
{
    lemma_copies_from_empty(e, b, c as nat, cls, w);
    if copies_accept(e, b, c as nat, cls, w) {
        let ws = choose|ws: Seq<Seq<char>>|
            ws.len() == c && #[trigger] ws.flatten() == w
                && forall|j: int| 0 <= j < ws.len() ==> nfa_accepts(b, cls, #[trigger] ws[j]);
        assert(count_allowed(RepetitionOp::Exactly(c), ws.len()));
    }
}

/// `c` copies followed by the optionally repeated NFA read `c` or more words of the NFA.
pub proof fn lemma_at_least_repeats(e: NfaView, b: NfaView, a: NfaView, z: NfaView, r: NfaView, c: u32, cls: Seq<CharMatcher>, w: Seq<char>)
    requires
        nfa_is_empty(e),
        nfa_wf(b),
        nfa_wf(a),
        nfa_wf(z),
        b.states.len() + 2 <= usize::MAX,
        z.states == zero_or_more_states(b),
        z.start == b.states.len(),
        z.end == b.states.len() + 1,
        forall|x: Seq<char>| #[trigger] nfa_accepts(a, cls, x) <==> copies_accept(e, b, c as nat, cls, x),
        a.states.len() + z.states.len() <= usize::MAX,
        nfa_is_empty(a) ==> r == z,
        !nfa_is_empty(a) ==> r.states == concat_states(a, z) && r.start == a.start
            && r.end == z.end + a.states.len(),
    ensures
        nfa_accepts(r, cls, w) <==> repeats_accept(b, RepetitionOp::AtLeast(c), cls, w),
{
    lemma_concat_language(a, z, r, cls, w);
    if nfa_accepts(r, cls, w) {
        let (w1, w2) = choose|w1: Seq<char>, w2: Seq<char>|
            w == w1 + w2 && #[trigger] nfa_accepts(a, cls, w1) && #[trigger] nfa_accepts(z, cls, w2);
        lemma_copies_from_empty(e, b, c as nat, cls, w1);
        let ws1 = choose|ws: Seq<Seq<char>>|
            ws.len() == c && #[trigger] ws.flatten() == w1
                && forall|j: int| 0 <= j < ws.len() ==> nfa_accepts(b, cls, #[trigger] ws[j]);
        lemma_zero_or_more_language(b, z, cls, w2);
        let ws2 = choose|ws: Seq<Seq<char>>|
            (forall|j: int| 0 <= j < ws.len() ==> nfa_accepts(b, cls, #[trigger] ws[j])) && ws.flatten() == w2;
        let ws = ws1 + ws2;
        vstd::seq_lib::lemma_flatten_concat(ws1, ws2);
        assert forall|j: int| 0 <= j < ws.len() implies nfa_accepts(b, cls, #[trigger] ws[j]) by {
            if j < ws1.len() {
                assert(ws[j] == ws1[j]);
            } else {
                assert(ws[j] == ws2[j - ws1.len()]);
            }
        }
        assert(count_allowed(RepetitionOp::AtLeast(c), ws.len()) && ws.flatten() == w);
    }
    if repeats_accept(b, RepetitionOp::AtLeast(c), cls, w) {
        let ws = choose|ws: Seq<Seq<char>>|
            count_allowed(RepetitionOp::AtLeast(c), ws.len()) && #[trigger] ws.flatten() == w
                && forall|j: int| 0 <= j < ws.len() ==> nfa_accepts(b, cls, #[trigger] ws[j]);
        let ws1 = ws.take(c as int);
        let ws2 = ws.skip(c as int);
        assert(ws1 + ws2 =~= ws);
        vstd::seq_lib::lemma_flatten_concat(ws1, ws2);
        let w1 = ws1.flatten();
        let w2 = ws2.flatten();
        assert forall|j: int| 0 <= j < ws1.len() implies nfa_accepts(b, cls, #[trigger] ws1[j]) by {
            assert(ws1[j] == ws[j]);
        }
        assert forall|j: int| 0 <= j < ws2.len() implies nfa_accepts(b, cls, #[trigger] ws2[j]) by {
            assert(ws2[j] == ws[j + c]);
        }
        lemma_copies_from_empty(e, b, c as nat, cls, w1);
        assert(nfa_accepts(a, cls, w1));
        lemma_zero_or_more_language(b, z, cls, w2);
        assert(nfa_accepts(z, cls, w2));
    }
}

/// Words that are empty or read by `b` flatten like the words among them that `b` reads.
proof fn lemma_drop_empty_words(b: NfaView, cls: Seq<CharMatcher>, ws: Seq<Seq<char>>) -> (r: Seq<Seq<char>>)
    requires
        forall|j: int| 0 <= j < ws.len() ==> #[trigger] ws[j] == Seq::<char>::empty() || nfa_accepts(b, cls, ws[j]),
    ensures
        r.len() <= ws.len(),
        forall|j: int| 0 <= j < r.len() ==> nfa_accepts(b, cls, #[trigger] r[j]),
        r.flatten() == ws.flatten(),
    decreases ws.len(),
{
    if ws.len() == 0 {
        ws
    } else {
        let init = ws.drop_last();
        let last = ws.last();
        assert forall|j: int| 0 <= j < init.len() implies #[trigger] init[j] == Seq::<char>::empty() || nfa_accepts(b, cls, init[j]) by {
            assert(init[j] == ws[j]);
        }
        let r0 = lemma_drop_empty_words(b, cls, init);
        assert(init.push(last) =~= ws);
        init.lemma_flatten_push(last);
        if nfa_accepts(b, cls, last) {
            let r = r0.push(last);
            r0.lemma_flatten_push(last);
            assert forall|j: int| 0 <= j < r.len() implies nfa_accepts(b, cls, #[trigger] r[j]) by {
                if j < r0.len() {
                    assert(r[j] == r0[j]);
                }
            }
            r
        } else {
            assert(ws[ws.len() - 1] == last);
            assert(init.flatten() + last =~= init.flatten());
            r0
        }
    }
}

/// Empty words.
pub open spec fn empty_words(n: nat) -> Seq<Seq<char>> {
    Seq::new(n, |i: int| Seq::<char>::empty())
}

/// Padding words with empty words keeps what they flatten to.
proof fn lemma_pad_empty_words(ws: Seq<Seq<char>>, n: nat)
    ensures
        (ws + empty_words(n)).flatten() == ws.flatten(),
    decreases n,
{
    if n == 0 {
        assert(ws + empty_words(0) =~= ws);
    } else {
        lemma_pad_empty_words(ws, (n - 1) as nat);
        let p = ws + empty_words((n - 1) as nat);
        assert(p.push(Seq::<char>::empty()) =~= ws + empty_words(n));
        p.lemma_flatten_push(Seq::<char>::empty());
        assert(p.flatten() + Seq::<char>::empty() =~= p.flatten());
    }
}

/// The number of optional copies in a bounded repetition.
pub open spec fn optional_copies(least: u32, most: u32) -> nat {
    if most > least { (most - least) as nat } else { 0 }
}

/// `least` copies followed by `optional_copies(least, most)` optional copies read between
/// `least` and `most` words of the NFA.
pub proof fn lemma_bounded_repeats(e: NfaView, b: NfaView, a: NfaView, o: NfaView, r: NfaView, least: u32, most: u32, cls: Seq<CharMatcher>, w: Seq<char>)
    requires
        nfa_is_empty(e),
        nfa_wf(b),
        b.states.len() + 1 <= usize::MAX,
        o.states == zero_or_one_states(b),
        o.start == b.states.len(),
        o.end == b.end,
        forall|x: Seq<char>| #[trigger] nfa_accepts(a, cls, x) <==> copies_accept(e, b, least as nat, cls, x),
        forall|x: Seq<char>| #[trigger] nfa_accepts(r, cls, x) <==> copies_accept(a, o, optional_copies(least, most), cls, x),
    ensures
        nfa_accepts(r, cls, w) <==> repeats_accept(b, RepetitionOp::Bounded(least, most), cls, w),
{
    let k = optional_copies(least, most);
    if nfa_accepts(r, cls, w) {
        let (w0, ws2) = choose|w0: Seq<char>, ws2: Seq<Seq<char>>|
            ws2.len() == k && #[trigger] nfa_accepts(a, cls, w0)
                && (forall|j: int| 0 <= j < ws2.len() ==> nfa_accepts(o, cls, #[trigger] ws2[j]))
                && w == w0 + #[trigger] ws2.flatten();
        lemma_copies_from_empty(e, b, least as nat, cls, w0);
        let ws1 = choose|ws: Seq<Seq<char>>|
            ws.len() == least && #[trigger] ws.flatten() == w0
                && forall|j: int| 0 <= j < ws.len() ==> nfa_accepts(b, cls, #[trigger] ws[j]);
        assert forall|j: int| 0 <= j < ws2.len() implies #[trigger] ws2[j] == Seq::<char>::empty() || nfa_accepts(b, cls, ws2[j]) by {
            lemma_zero_or_one_language(b, o, cls, ws2[j]);
        }
        let ws3 = lemma_drop_empty_words(b, cls, ws2);
        let ws = ws1 + ws3;
        vstd::seq_lib::lemma_flatten_concat(ws1, ws3);
        assert forall|j: int| 0 <= j < ws.len() implies nfa_accepts(b, cls, #[trigger] ws[j]) by {
            if j < ws1.len() {
                assert(ws[j] == ws1[j]);
            } else {
                assert(ws[j] == ws3[j - ws1.len()]);
            }
        }
        assert(count_allowed(RepetitionOp::Bounded(least, most), ws.len()) && ws.flatten() == w);
    }
    if repeats_accept(b, RepetitionOp::Bounded(least, most), cls, w) {
        let ws = choose|ws: Seq<Seq<char>>|
            count_allowed(RepetitionOp::Bounded(least, most), ws.len()) && #[trigger] ws.flatten() == w
                && forall|j: int| 0 <= j < ws.len() ==> nfa_accepts(b, cls, #[trigger] ws[j]);
        let ws1 = ws.take(least as int);
        let ws3 = ws.skip(least as int);
        assert(ws1 + ws3 =~= ws);
        vstd::seq_lib::lemma_flatten_concat(ws1, ws3);
        assert forall|j: int| 0 <= j < ws1.len() implies nfa_accepts(b, cls, #[trigger] ws1[j]) by {
            assert(ws1[j] == ws[j]);
        }
        let w0 = ws1.flatten();
        lemma_copies_from_empty(e, b, least as nat, cls, w0);
        assert(nfa_accepts(a, cls, w0));
        assert(ws3.len() <= k);
        let pad = (k - ws3.len()) as nat;
        let ws2 = ws3 + empty_words(pad);
        lemma_pad_empty_words(ws3, pad);
        assert forall|j: int| 0 <= j < ws2.len() implies nfa_accepts(o, cls, #[trigger] ws2[j]) by {
            lemma_zero_or_one_language(b, o, cls, ws2[j]);
            if j < ws3.len() {
                assert(ws2[j] == ws[j + least]);
            } else {
                assert(ws2[j] == empty_words(pad)[j - ws3.len()]);
            }
        }
        assert(ws2.len() == k);
        assert(w == w0 + ws2.flatten());
        assert(copies_accept(a, o, k, cls, w));
    }
}

/// The NFA reads what the tree reads, under the registry of `keys` and `cls` and under every
/// registry that extends it.
pub open spec fn reads_as_tree(v: NfaView, t: RegexTree, keys: Seq<KeyView>, cls: Seq<CharMatcher>) -> bool {
    forall|keys2: Seq<KeyView>, cls2: Seq<CharMatcher>, w: Seq<char>|
        #![trigger registry_extends(keys, cls, keys2, cls2), tree_accepts(t, keys2, cls2, w)]
        #![trigger registry_extends(keys, cls, keys2, cls2), nfa_accepts(v, cls2, w)]
        registry_extends(keys, cls, keys2, cls2) ==> (nfa_accepts(v, cls2, w) <==> tree_accepts(t, keys2, cls2, w))
}

/// An NFA that reads as a tree under a registry does so under every extension of it.
pub proof fn lemma_reads_as_tree_extends(
    v: NfaView,
    t: RegexTree,
    keys: Seq<KeyView>,
    cls: Seq<CharMatcher>,
    keys_b: Seq<KeyView>,
    cls_b: Seq<CharMatcher>,
)
    requires
        reads_as_tree(v, t, keys, cls),
        registry_extends(keys, cls, keys_b, cls_b),
    ensures
        reads_as_tree(v, t, keys_b, cls_b),
{
    assert forall|keys2: Seq<KeyView>, cls2: Seq<CharMatcher>, w: Seq<char>|
        registry_extends(keys_b, cls_b, keys2, cls2) implies (nfa_accepts(v, cls2, w) <==> tree_accepts(t, keys2, cls2, w)) by {
        lemma_registry_extends(keys, cls, keys_b, cls_b, keys2, cls2);
    }
}

/// Where an NFA reads as a tree, repeating it reads as repeating the tree.
pub proof fn lemma_repeats_tree(
    v: NfaView,
    sub: RegexTree,
    op: RepetitionOp,
    keys: Seq<KeyView>,
    cls: Seq<CharMatcher>,
    keys2: Seq<KeyView>,
    cls2: Seq<CharMatcher>,
    w: Seq<char>,
)
    requires
        reads_as_tree(v, sub, keys, cls),
        registry_extends(keys, cls, keys2, cls2),
    ensures
        repeats_accept(v, op, cls2, w) <==> exists|ws: Seq<Seq<char>>|
            count_allowed(op, ws.len()) && ws.flatten() == w
                && forall|j: int| 0 <= j < ws.len() ==> tree_accepts(sub, keys2, cls2, #[trigger] ws[j]),
{
    if repeats_accept(v, op, cls2, w) {
        let ws = choose|ws: Seq<Seq<char>>|
            count_allowed(op, ws.len()) && #[trigger] ws.flatten() == w
                && forall|j: int| 0 <= j < ws.len() ==> nfa_accepts(v, cls2, #[trigger] ws[j]);
        assert forall|j: int| 0 <= j < ws.len() implies tree_accepts(sub, keys2, cls2, #[trigger] ws[j]) by {
            assert(nfa_accepts(v, cls2, ws[j]));
        }
    }
    if exists|ws: Seq<Seq<char>>|
        count_allowed(op, ws.len()) && ws.flatten() == w
            && forall|j: int| 0 <= j < ws.len() ==> tree_accepts(sub, keys2, cls2, #[trigger] ws[j]) {
        let ws = choose|ws: Seq<Seq<char>>|
            count_allowed(op, ws.len()) && ws.flatten() == w
                && forall|j: int| 0 <= j < ws.len() ==> tree_accepts(sub, keys2, cls2, #[trigger] ws[j]);
        assert forall|j: int| 0 <= j < ws.len() implies nfa_accepts(v, cls2, #[trigger] ws[j]) by {
            assert(tree_accepts(sub, keys2, cls2, ws[j]));
        }
        assert(ws.flatten() == w);
    }
}

/// Adding one more alternative to the NFA of the alternatives so far gives the NFA of the
/// longer alternatives.
pub proof fn lemma_alternatives_step(
    a: NfaView,
    b: NfaView,
    r: NfaView,
    prev: Seq<RegexTree>,
    part: RegexTree,
    keys: Seq<KeyView>,
    cls: Seq<CharMatcher>,
    keys_b: Seq<KeyView>,
    cls_b: Seq<CharMatcher>,
)
    requires
        nfa_wf(a),
        nfa_wf(b),
        a.states.len() + b.states.len() + 2 <= usize::MAX,
        nfa_is_empty(a) ==> r == b,
        !nfa_is_empty(a) ==> r.states == alternation_states(a, b)
            && r.start == a.states.len() + b.states.len()
            && r.end == a.states.len() + b.states.len() + 1,
        nfa_is_empty(a) == all_build_empty_nfa(prev),
        nfa_is_empty(b) == builds_empty_nfa(part),
        forall|keys2: Seq<KeyView>, cls2: Seq<CharMatcher>, w: Seq<char>|
            #![trigger registry_extends(keys, cls, keys2, cls2), nfa_accepts(a, cls2, w)]
            registry_extends(keys, cls, keys2, cls2) ==> (nfa_accepts(a, cls2, w) <==> alternatives_accept(prev, keys2, cls2, w)),
        registry_extends(keys, cls, keys_b, cls_b),
        reads_as_tree(b, part, keys_b, cls_b),
    ensures
        nfa_is_empty(r) == all_build_empty_nfa(prev.push(part)),
        forall|keys2: Seq<KeyView>, cls2: Seq<CharMatcher>, w: Seq<char>|
            #![trigger registry_extends(keys_b, cls_b, keys2, cls2), nfa_accepts(r, cls2, w)]
            registry_extends(keys_b, cls_b, keys2, cls2) ==> (nfa_accepts(r, cls2, w) <==> alternatives_accept(prev.push(part), keys2, cls2, w)),
{
    let all = prev.push(part);
    assert(all.drop_last() =~= prev);
    assert(all.last() == part);
    assert forall|keys2: Seq<KeyView>, cls2: Seq<CharMatcher>, w: Seq<char>|
        #![trigger registry_extends(keys_b, cls_b, keys2, cls2), nfa_accepts(r, cls2, w)]
        registry_extends(keys_b, cls_b, keys2, cls2) implies (nfa_accepts(r, cls2, w) <==> alternatives_accept(all, keys2, cls2, w)) by {
        lemma_registry_extends(keys, cls, keys_b, cls_b, keys2, cls2);
        lemma_alternation_language(a, b, r, cls2, w);
        assert(nfa_accepts(a, cls2, w) <==> alternatives_accept(prev, keys2, cls2, w));
        assert(nfa_accepts(b, cls2, w) <==> tree_accepts(part, keys2, cls2, w));
    }
}

/// Adding one more tree to the NFA of the sequence so far gives the NFA of the longer sequence.
pub proof fn lemma_sequence_step(
    a: NfaView,
    b: NfaView,
    r: NfaView,
    prev: Seq<RegexTree>,
    part: RegexTree,
    keys: Seq<KeyView>,
    cls: Seq<CharMatcher>,
    keys_b: Seq<KeyView>,
    cls_b: Seq<CharMatcher>,
)
    requires
        nfa_wf(a),
        nfa_wf(b),
        a.states.len() + b.states.len() <= usize::MAX,
        nfa_is_empty(a) ==> r == b,
        !nfa_is_empty(a) ==> r.states == concat_states(a, b) && r.start == a.start
            && r.end == b.end + a.states.len(),
        nfa_is_empty(a) == all_build_empty_nfa(prev),
        nfa_is_empty(b) == builds_empty_nfa(part),
        forall|keys2: Seq<KeyView>, cls2: Seq<CharMatcher>, w: Seq<char>|
            #![trigger registry_extends(keys, cls, keys2, cls2), nfa_accepts(a, cls2, w)]
            registry_extends(keys, cls, keys2, cls2) ==> (nfa_accepts(a, cls2, w) <==> sequence_accepts(prev, keys2, cls2, w)),
        registry_extends(keys, cls, keys_b, cls_b),
        reads_as_tree(b, part, keys_b, cls_b),
    ensures
        nfa_is_empty(r) == all_build_empty_nfa(prev.push(part)),
        forall|keys2: Seq<KeyView>, cls2: Seq<CharMatcher>, w: Seq<char>|
            #![trigger registry_extends(keys_b, cls_b, keys2, cls2), nfa_accepts(r, cls2, w)]
            registry_extends(keys_b, cls_b, keys2, cls2) ==> (nfa_accepts(r, cls2, w) <==> sequence_accepts(prev.push(part), keys2, cls2, w)),
{
    let all = prev.push(part);
    assert(all.drop_last() =~= prev);
    assert(all.last() == part);
    assert forall|keys2: Seq<KeyView>, cls2: Seq<CharMatcher>, w: Seq<char>|
        #![trigger registry_extends(keys_b, cls_b, keys2, cls2), nfa_accepts(r, cls2, w)]
        registry_extends(keys_b, cls_b, keys2, cls2) implies (nfa_accepts(r, cls2, w) <==> sequence_accepts(all, keys2, cls2, w)) by {
        assert(all.drop_last() =~= prev);
        assert(all.len() > 0);
        lemma_registry_extends(keys, cls, keys_b, cls_b, keys2, cls2);
        lemma_concat_language(a, b, r, cls2, w);
        if nfa_accepts(r, cls2, w) {
            let (w1, w2) = choose|w1: Seq<char>, w2: Seq<char>|
                w == w1 + w2 && #[trigger] nfa_accepts(a, cls2, w1) && #[trigger] nfa_accepts(b, cls2, w2);
            assert(sequence_accepts(prev, keys2, cls2, w1));
            assert(tree_accepts(part, keys2, cls2, w2));
            assert(sequence_accepts(all.drop_last(), keys2, cls2, w1));
            assert(tree_accepts(all.last(), keys2, cls2, w2));
            assert(sequence_accepts(all, keys2, cls2, w));
        }
        if sequence_accepts(all, keys2, cls2, w) {
            let front = sequence_language(prev, keys2, cls2);
            let back = tree_language(part, keys2, cls2);
            let (w1, w2) = choose|w1: Seq<char>, w2: Seq<char>|
                w == w1 + w2 && #[trigger] front.contains(w1) && #[trigger] back.contains(w2);
            assert(sequence_accepts(prev, keys2, cls2, w1));
            assert(nfa_accepts(a, cls2, w1));
            assert(nfa_accepts(b, cls2, w2));
        }
    }
}

/// The first refusal in a prefix of trees is the first refusal in all of them.
pub proof fn lemma_refusal_prefix(ts: Seq<RegexTree>, n: int)
    requires
        0 <= n <= ts.len(),
        sequence_refusal(ts.take(n)) is Some,
    ensures
        sequence_refusal(ts) == sequence_refusal(ts.take(n)),
    decreases ts.len() - n,
{
    if n < ts.len() {
        let next = ts.take(n + 1);
        assert(next.drop_last() =~= ts.take(n));
        lemma_refusal_prefix(ts, n + 1);
    } else {
        assert(ts.take(n) =~= ts);
    }
}

} // verus!
