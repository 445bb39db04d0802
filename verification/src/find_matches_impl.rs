//! The search for all non-overlapping matches in a haystack, with the bookkeeping of the line
//! starts that gives the line and column of byte offsets.
use vstd::prelude::*;
use crate::char_matcher::CharMatcher;
use crate::compiled_nfa::{is_longest_match, lemma_longest_at, lemma_longest_unique, longest_at, match_valid};
use crate::find_matches::PeekResult;
use crate::compiled_scanner_mode::{transition_lookup, CompiledScannerMode};
use crate::match_type::Match;
use crate::position::Position;
use crate::scanner_nfa_impl::{byte_offsets_of, mode_after, mode_match, ScannerNfaImpl};
use crate::sorted::{insert_sorted, strictly_increasing};
use crate::span::Span;
use crate::text::{byte_offset, char_byte_offsets_of_str, lemma_byte_offset_mono, str_chars};

verus! {

/// The byte offsets of the characters of the positions `from` up to `to` (exclusive) whose
/// preceding character is a line feed; the character before `from` is `prev`.
pub open spec fn newline_starts(chars: Seq<char>, offsets: Seq<usize>, from: int, to: int, prev: char) -> Set<usize> {
    Set::new(|x: usize| exists|j: int|
        from <= j < to && #[trigger] offsets[j] == x && (if j == from { prev } else { chars[j - 1] }) == '\n')
}

/// The last character read after reading the characters from `from` up to `to` (exclusive),
/// where `prev` was the last one before.
pub open spec fn last_read(chars: Seq<char>, from: int, to: int, prev: char) -> char {
    if to > from {
        chars[to - 1]
    } else {
        prev
    }
}

/// `j` is the line of byte offset `x` among the sorted line starts `lo`: the last line start
/// not behind `x`.
pub open spec fn line_of(lo: Seq<usize>, x: usize, j: int) -> bool {
    &&& 0 <= j < lo.len()
    &&& lo[j] <= x
    &&& (j + 1 == lo.len() || x < lo[j + 1])
}

/// Where `advance_to(position)` stops: from the cursor on, characters are read up to and
/// including the first one that ends at or behind `position` (relative to the start of the
/// iteration), or up to the end; `c1` is the position of the next character after that.
pub open spec fn advance_stop(chars_len: int, offsets: Seq<usize>, base: int, c0: int, position: usize, c1: int) -> bool {
    &&& c0 <= c1 <= chars_len
    &&& (c0 < chars_len ==> c0 < c1)
    &&& forall|j: int| c0 < j < c1 ==> #[trigger] offsets[j] - offsets[base] < position
    &&& (c1 == chars_len || offsets[c1] - offsets[base] >= position)
}

/// Reading one more character extends the line starts by the offset of that character if the
/// character before it is a line feed.
pub proof fn lemma_newline_starts_step(chars: Seq<char>, offsets: Seq<usize>, from: int, to: int, prev: char)
    requires
        from <= to < chars.len(),
    ensures
        newline_starts(chars, offsets, from, to + 1, prev) == newline_starts(chars, offsets, from, to, prev).union(
            if last_read(chars, from, to, prev) == '\n' { set![offsets[to]] } else { Set::empty() },
        ),
{
    let a = newline_starts(chars, offsets, from, to + 1, prev);
    let b = newline_starts(chars, offsets, from, to, prev).union(
        if last_read(chars, from, to, prev) == '\n' { set![offsets[to]] } else { Set::empty() },
    );
    assert forall|x: usize| a.contains(x) <==> b.contains(x) by {
        if a.contains(x) {
            let j = choose|j: int| from <= j < to + 1 && #[trigger] offsets[j] == x && (if j == from { prev } else { chars[j - 1] }) == '\n';
            if j < to {
                assert(newline_starts(chars, offsets, from, to, prev).contains(x));
            }
        }
        if newline_starts(chars, offsets, from, to, prev).contains(x) {
            let j = choose|j: int| from <= j < to && #[trigger] offsets[j] == x && (if j == from { prev } else { chars[j - 1] }) == '\n';
            assert(from <= j < to + 1);
        }
        if last_read(chars, from, to, prev) == '\n' && x == offsets[to] {
            assert(from <= to < to + 1 && offsets[to] == x);
        }
    }
    assert(a =~= b);
}

/// The line starts of an empty range of characters are none.
pub proof fn lemma_newline_starts_empty(chars: Seq<char>, offsets: Seq<usize>, from: int, prev: char)
    ensures
        newline_starts(chars, offsets, from, from, prev) == Set::<usize>::empty(),
{
    assert(newline_starts(chars, offsets, from, from, prev) =~= Set::<usize>::empty());
}

/// The line starts of two adjacent ranges of characters make up those of the whole range.
pub proof fn lemma_newline_starts_concat(chars: Seq<char>, offsets: Seq<usize>, a: int, b: int, c: int, prev: char)
    requires
        a <= b <= c,
    ensures
        newline_starts(chars, offsets, a, c, prev) == newline_starts(chars, offsets, a, b, prev).union(
            newline_starts(chars, offsets, b, c, last_read(chars, a, b, prev))),
        last_read(chars, b, c, last_read(chars, a, b, prev)) == last_read(chars, a, c, prev),
{
    let l = newline_starts(chars, offsets, a, c, prev);
    let r = newline_starts(chars, offsets, a, b, prev).union(newline_starts(chars, offsets, b, c, last_read(chars, a, b, prev)));
    assert forall|x: usize| l.contains(x) <==> r.contains(x) by {
        if l.contains(x) {
            let j = choose|j: int| a <= j < c && #[trigger] offsets[j] == x && (if j == a { prev } else { chars[j - 1] }) == '\n';
            if j < b {
                assert(newline_starts(chars, offsets, a, b, prev).contains(x));
            } else {
                assert(newline_starts(chars, offsets, b, c, last_read(chars, a, b, prev)).contains(x));
            }
        }
        if newline_starts(chars, offsets, a, b, prev).contains(x) {
            let j = choose|j: int| a <= j < b && #[trigger] offsets[j] == x && (if j == a { prev } else { chars[j - 1] }) == '\n';
            assert(a <= j < c);
        }
        if newline_starts(chars, offsets, b, c, last_read(chars, a, b, prev)).contains(x) {
            let j = choose|j: int| b <= j < c && #[trigger] offsets[j] == x
                && (if j == b { last_read(chars, a, b, prev) } else { chars[j - 1] }) == '\n';
            assert(a <= j < c);
        }
    }
    assert(l =~= r);
}

/// Reading up to the end of a match that starts at the cursor stops right behind the match.
pub proof fn lemma_advance_to_end(chars: Seq<char>, offsets: Seq<usize>, base: int, c0: int, e: int, c1: int)
    requires
        byte_offsets_of(chars, offsets),
        0 <= base <= c0 < e <= chars.len(),
        advance_stop(chars.len() as int, offsets, base, c0, (offsets[e] - offsets[base]) as usize, c1),
    ensures
        c1 == e,
{
    crate::text::lemma_byte_offset_mono(chars, base, e);
    if c1 < e {
        crate::text::lemma_byte_offset_mono(chars, c1, e);
        assert(c1 < chars.len());
    } else if c1 > e {
        crate::text::lemma_byte_offset_mono(chars, e, c1);
        assert(offsets[e] - offsets[base] < offsets[e] - offsets[base]);
    }
}

/// The token types and spans of the matches.
pub open spec fn match_items(ms: Seq<Match>) -> Seq<(usize, Span)> {
    ms.map_values(|m: Match| (m.spec_token_type(), m.spec_span()))
}

/// The up to `n` matches found one after the other from position `pos` on without switching
/// modes, as token types and spans; the search stops where nothing matches or behind a match
/// whose token type has a mode transition, which is given.
pub open spec fn peek_spec(
    mode: CompiledScannerMode,
    cls: Seq<CharMatcher>,
    input: Seq<char>,
    offsets: Seq<usize>,
    pos: int,
    n: nat,
) -> (Seq<(usize, Span)>, Option<usize>)
    decreases n,
{
    if n == 0 {
        (Seq::empty(), None)
    } else {
        match longest_at(mode.nfa.automaton@, mode.nfa.lookahead_views(), cls, input, pos) {
            None => (Seq::empty(), None),
            Some((p, k)) => {
                let item = (mode.nfa.terminal_ids@[p as int], Span { start: offsets[pos], end: offsets[pos + k] });
                match transition_lookup(mode.transitions@, item.0) {
                    Some(next) => (seq![item], Some(next)),
                    None => {
                        let rest = peek_spec(mode, cls, input, offsets, pos + k, (n - 1) as nat);
                        (seq![item] + rest.0, rest.1)
                    },
                }
            },
        }
    }
}

/// The match the mode finds at character position `q`: its token type, its span and the
/// character position behind it (see [mode_match]).
pub open spec fn match_at(
    mode: CompiledScannerMode,
    cls: Seq<CharMatcher>,
    input: Seq<char>,
    offsets: Seq<usize>,
    q: int,
) -> Option<(usize, Span, int)> {
    match longest_at(mode.nfa.automaton@, mode.nfa.lookahead_views(), cls, input, q) {
        Some((p, k)) => Some((mode.nfa.terminal_ids@[p as int], Span { start: offsets[q], end: offsets[q + k] }, q + k)),
        None => None,
    }
}

/// The first character position from `q` on at which the mode finds a match.
pub open spec fn first_match_from(
    mode: CompiledScannerMode,
    cls: Seq<CharMatcher>,
    input: Seq<char>,
    offsets: Seq<usize>,
    q: int,
) -> Option<int>
    decreases input.len() + 1 - q,
{
    if q > input.len() {
        None
    } else if match_at(mode, cls, input, offsets, q) is Some {
        Some(q)
    } else {
        first_match_from(mode, cls, input, offsets, q + 1)
    }
}

/// The mode after a match of token type `t` in mode number `current`: the target of the
/// transition of `t` if the mode has one, else `current`.
pub open spec fn mode_after_token(mode: CompiledScannerMode, current: int, t: usize) -> int {
    match transition_lookup(mode.transitions@, t) {
        Some(next) => next as int,
        None => current,
    }
}

/// The matches the scanner finds from character position `cursor` on, starting in mode number
/// `mode`, as token types and spans: at each step the longest match at the first position that
/// has one, after which the mode switches as the match's token type says. The scan ends where
/// no match follows, or in a mode that the scanner does not have.
pub open spec fn scan_from(
    modes: Seq<CompiledScannerMode>,
    cls: Seq<CharMatcher>,
    input: Seq<char>,
    offsets: Seq<usize>,
    cursor: int,
    mode: int,
) -> Seq<(usize, Span)>
    decreases input.len() + 1 - cursor,
{
    if cursor > input.len() || mode < 0 || mode >= modes.len() {
        Seq::empty()
    } else {
        match first_match_from(modes[mode], cls, input, offsets, cursor) {
            None => Seq::empty(),
            Some(q) => match match_at(modes[mode], cls, input, offsets, q) {
                Some((t, span, end)) => if cursor < end {
                    seq![(t, span)] + scan_from(modes, cls, input, offsets, end, mode_after_token(modes[mode], mode, t))
                } else {
                    Seq::empty()
                },
                None => Seq::empty(),
            },
        }
    }
}

/// The first position with a match is the one behind the positions without.
pub proof fn lemma_first_match(
    mode: CompiledScannerMode,
    cls: Seq<CharMatcher>,
    input: Seq<char>,
    offsets: Seq<usize>,
    c: int,
    q: int,
)
    requires
        c <= q <= input.len(),
        forall|q2: int| c <= q2 < q ==> #[trigger] match_at(mode, cls, input, offsets, q2) is None,
        match_at(mode, cls, input, offsets, q) is Some,
    ensures
        first_match_from(mode, cls, input, offsets, c) == Some(q),
    decreases q - c,
{
    if c < q {
        lemma_first_match(mode, cls, input, offsets, c + 1, q);
    }
}

/// Where no position from `c` on has a match, there is no first one.
pub proof fn lemma_no_first_match(
    mode: CompiledScannerMode,
    cls: Seq<CharMatcher>,
    input: Seq<char>,
    offsets: Seq<usize>,
    c: int,
)
    requires
        forall|q: int| c <= q <= input.len() ==> #[trigger] match_at(mode, cls, input, offsets, q) is None,
    ensures
        first_match_from(mode, cls, input, offsets, c) is None,
    decreases input.len() + 1 - c,
{
    if c <= input.len() {
        lemma_no_first_match(mode, cls, input, offsets, c + 1);
    }
}

/// The scan from a consistent iterator's position in its current mode.
pub open spec fn scan_of(it: FindMatchesImpl) -> Seq<(usize, Span)> {
    scan_from(it.scanner().modes(), it.scanner().classes(), it.chars(), it.offsets(), it.cursor() as int,
        it.scanner().spec_current_mode() as int)
}

/// A match that the iterator finds is the first item of the scan, which goes on from behind the
/// match in the mode the match switches to.
pub proof fn lemma_scan_step(before: FindMatchesImpl, after: FindMatchesImpl, m: Match)
    requires
        before.wf(),
        after.wf(),
        before.scanner().mode_valid(),
        after.chars() == before.chars(),
        after.offsets() == before.offsets(),
        after.scanner().modes() == before.scanner().modes(),
        after.scanner().classes() == before.scanner().classes(),
        step_found(before, after, m),
        exists|q: int| before.cursor() <= q < after.cursor()
            && (forall|q2: int| before.cursor() <= q2 < q ==> #[trigger] mode_match(before.mode_now(),
                before.scanner().classes(), before.chars(), before.offsets(), q2, None))
            && #[trigger] mode_match(before.mode_now(), before.scanner().classes(),
                before.chars(), before.offsets(), q, Some(m)),
        after.scanner().spec_current_mode() == mode_after(before.mode_now(), before.scanner().spec_current_mode(), Some(m)),
    ensures
        scan_of(before) == seq![(m.spec_token_type(), m.spec_span())] + scan_of(after),
{
    let modes = before.scanner().modes();
    let cls = before.scanner().classes();
    let input = before.chars();
    let offsets = before.offsets();
    let c = before.cursor() as int;
    let i = before.scanner().spec_current_mode() as int;
    let mode = before.mode_now();
    before.lemma_wf_facts();
    after.lemma_wf_facts();
    let q = choose|q: int| before.cursor() <= q < after.cursor()
        && (forall|q2: int| before.cursor() <= q2 < q ==> #[trigger] mode_match(before.mode_now(),
            before.scanner().classes(), before.chars(), before.offsets(), q2, None))
        && #[trigger] mode_match(before.mode_now(), before.scanner().classes(),
            before.chars(), before.offsets(), q, Some(m));
    assert forall|q2: int| c <= q2 < q implies #[trigger] match_at(mode, cls, input, offsets, q2) is None by {
        assert(mode_match(mode, cls, input, offsets, q2, None));
        lemma_longest_at(mode.nfa.automaton@, mode.nfa.lookahead_views(), cls, input, q2, None);
    }
    let (p, k) = choose|p: usize, k: usize|
        #[trigger] is_longest_match(mode.nfa.automaton@, mode.nfa.lookahead_views(), cls, input, q, Some((p, k)))
            && p < mode.nfa.terminal_ids@.len()
            && m.spec_token_type() == mode.nfa.terminal_ids@[p as int]
            && m.spec_span() == (Span { start: offsets[q], end: offsets[q + k] });
    lemma_longest_at(mode.nfa.automaton@, mode.nfa.lookahead_views(), cls, input, q, Some((p, k)));
    assert(match_valid(mode.nfa.automaton@, mode.nfa.lookahead_views(), cls, input, q, k as nat, p as int));
    assert(1 <= k && q + k <= input.len());
    lemma_first_match(mode, cls, input, offsets, c, q);
    let e = after.cursor() as int;
    assert(offsets[e] == offsets[q + k]);
    if e < q + k {
        assert(offsets[e] < offsets[q + k]);
    } else if e > q + k {
        assert(offsets[q + k] < offsets[e]);
    }
    assert(e == q + k);
    assert(after.scanner().spec_current_mode() as int == mode_after_token(mode, i, m.spec_token_type()));
}

/// Where the iterator finds no match, the scan is empty, and so is the scan from the end it
/// moves to.
pub proof fn lemma_scan_none(before: FindMatchesImpl, after: FindMatchesImpl)
    requires
        before.wf(),
        after.wf(),
        before.scanner().mode_valid(),
        after.chars() == before.chars(),
        after.offsets() == before.offsets(),
        after.scanner().modes() == before.scanner().modes(),
        after.scanner().classes() == before.scanner().classes(),
        after.scanner().spec_current_mode() == before.scanner().spec_current_mode(),
        after.cursor() == after.chars().len(),
        forall|q: int| before.cursor() <= q <= before.chars().len() ==>
            #[trigger] mode_match(before.mode_now(), before.scanner().classes(),
            before.chars(), before.offsets(), q, None),
    ensures
        scan_of(before) == Seq::<(usize, Span)>::empty(),
        scan_of(after) == Seq::<(usize, Span)>::empty(),
{
    let cls = before.scanner().classes();
    let input = before.chars();
    let offsets = before.offsets();
    let mode = before.mode_now();
    before.lemma_wf_facts();
    assert forall|q: int| before.cursor() <= q <= input.len() implies #[trigger] match_at(mode, cls, input, offsets, q) is None by {
        assert(mode_match(mode, cls, input, offsets, q, None));
        lemma_longest_at(mode.nfa.automaton@, mode.nfa.lookahead_views(), cls, input, q, None);
    }
    lemma_no_first_match(mode, cls, input, offsets, before.cursor() as int);
    lemma_no_first_match(mode, cls, input, offsets, after.cursor() as int);
}

/// The peek result reports the matches found and why the search stopped: after `n` matches,
/// at the end of the matches, at a mode switch, or without any match.
pub open spec fn peek_result_is(r: PeekResult, found: (Seq<(usize, Span)>, Option<usize>), n: nat) -> bool {
    match r {
        PeekResult::Matches(v) => found.1 is None && found.0.len() == n && match_items(v@) == found.0,
        PeekResult::MatchesReachedEnd(v) => found.1 is None && 0 < found.0.len() < n && match_items(v@) == found.0,
        PeekResult::MatchesReachedModeSwitch((v, m)) => found.1 == Some(m) && match_items(v@) == found.0,
        PeekResult::NotFound => found.1 is None && found.0.len() == 0 && n > 0,
    }
}

/// A match was found between two states of the iteration: it lies in the same haystack, starts
/// at or behind the cursor before and ends where the cursor is after.
pub open spec fn step_found(before: FindMatchesImpl, after: FindMatchesImpl, m: Match) -> bool {
    &&& after.offsets() == before.offsets()
    &&& before.offsets()[before.cursor() as int] <= m.spec_span().start
    &&& m.spec_span().start < m.spec_span().end
    &&& after.offsets()[after.cursor() as int] == m.spec_span().end
}

/// Matches found one after the other do not overlap and come in the order of the haystack: each
/// starts at or behind the end of the one before.
pub proof fn lemma_matches_in_order(
    it0: FindMatchesImpl,
    it1: FindMatchesImpl,
    it2: FindMatchesImpl,
    m1: Match,
    m2: Match,
)
    requires
        step_found(it0, it1, m1),
        step_found(it1, it2, m2),
    ensures
        m1.spec_span().end <= m2.spec_span().start,
        m1.spec_span().start < m1.spec_span().end,
{
}

/// What a peek reports first is what the scanner finds next: where the matches peeked at a
/// position start with an item, the scanner does not pass over that position, and the match it
/// finds there has the token type and the span of that item.
pub proof fn lemma_peek_agrees_with_next(
    mode: CompiledScannerMode,
    cls: Seq<CharMatcher>,
    input: Seq<char>,
    offsets: Seq<usize>,
    pos: int,
    n: nat,
    m: Match,
)
    requires
        peek_spec(mode, cls, input, offsets, pos, n).0.len() > 0,
    ensures
        !mode_match(mode, cls, input, offsets, pos, None),
        mode_match(mode, cls, input, offsets, pos, Some(m)) ==> (m.spec_token_type(), m.spec_span())
            == peek_spec(mode, cls, input, offsets, pos, n).0[0],
{
    let a = mode.nfa.automaton@;
    let las = mode.nfa.lookahead_views();
    let r = longest_at(a, las, cls, input, pos);
    assert(n > 0);
    assert(r is Some);
    assert(exists|r2: Option<(usize, usize)>| is_longest_match(a, las, cls, input, pos, r2));
    assert(is_longest_match(a, las, cls, input, pos, r));
    if mode_match(mode, cls, input, offsets, pos, None) {
        lemma_longest_unique(a, las, cls, input, pos, None, r);
    }
    if mode_match(mode, cls, input, offsets, pos, Some(m)) {
        let (p, k) = choose|p: usize, k: usize|
            #[trigger] is_longest_match(a, las, cls, input, pos, Some((p, k)))
                && p < mode.nfa.terminal_ids@.len()
                && m.spec_token_type() == mode.nfa.terminal_ids@[p as int]
                && m.spec_span() == (Span { start: offsets[pos], end: offsets[pos + k] });
        lemma_longest_unique(a, las, cls, input, pos, Some((p, k)), r);
    }
}

/// `p` is the position of byte offset `x` given the line starts `lo`: the line is the number of
/// the last line start not behind `x`, the column the distance from it plus one.
pub open spec fn position_at(lo: Seq<usize>, x: usize, p: Position) -> bool {
    exists|j: int| #[trigger] line_of(lo, x, j) && p.line == j + 1 && p.column == x - lo[j] + 1
}

/// An iterator over all non-overlapping matches.
#[derive(Debug)]
pub struct FindMatchesImpl<'h> {
    /// The scanner used to find matches.
    scanner_impl: ScannerNfaImpl,
    /// The input haystack.
    input: &'h str,
    /// The characters of the haystack.
    chars: Vec<char>,
    /// The byte offsets of the characters of the haystack, followed by its byte length.
    offsets: Vec<usize>,
    /// The character position at which the characters being iterated start.
    base: usize,
    /// The character position of the next character of the iteration.
    cursor: usize,
    /// The position that `advance_to` returned last, relative to the start of the iteration:
    /// that of the last character it read, or the end where it read to the end.
    last_position: usize,
    /// The position, relative to the start of the iteration, just behind the characters that
    /// `advance_to` read last: the end of the last match found.
    end_position: usize,
    /// The last character read.
    last_char: char,
    /// The byte offsets at which lines start, in increasing order. The line number of an offset
    /// is the index of its line start plus one.
    line_offsets: Vec<usize>,
    /// The byte offset at which the iteration starts; it is added to the positions of the
    /// matches.
    offset: usize,
}

impl<'h> FindMatchesImpl<'h> {
    /// The scanner.
    pub closed spec fn scanner(&self) -> ScannerNfaImpl {
        self.scanner_impl
    }

    /// The characters of the haystack.
    pub closed spec fn chars(&self) -> Seq<char> {
        self.chars@
    }

    /// The byte offsets of the characters of the haystack and its byte length.
    pub closed spec fn offsets(&self) -> Seq<usize> {
        self.offsets@
    }

    /// The byte length of the haystack.
    pub open spec fn byte_len(&self) -> usize {
        self.offsets()[self.chars().len() as int]
    }

    /// The character position at which the iteration starts.
    pub closed spec fn base(&self) -> nat {
        self.base as nat
    }

    /// The character position of the next character of the iteration.
    pub closed spec fn cursor(&self) -> nat {
        self.cursor as nat
    }

    /// The position that `advance_to` returned last.
    pub closed spec fn last_position(&self) -> usize {
        self.last_position
    }

    /// The position just behind the characters that `advance_to` read last.
    pub closed spec fn end_position(&self) -> usize {
        self.end_position
    }

    /// The last character read.
    pub closed spec fn last_char(&self) -> char {
        self.last_char
    }

    /// The line starts.
    pub closed spec fn line_offsets(&self) -> Seq<usize> {
        self.line_offsets@
    }

    /// The byte offset at which the iteration starts.
    pub closed spec fn spec_offset(&self) -> usize {
        self.offset
    }

    /// The position relative to the start of the iteration of the character at `j`.
    pub open spec fn rel(&self, j: int) -> int {
        self.offsets()[j] - self.offsets()[self.base() as int]
    }

    /// The number of bytes from the start of the iteration to the end of the haystack.
    pub open spec fn rest_len(&self) -> int {
        self.rel(self.chars().len() as int)
    }

    /// The iterator is consistent: the characters and offsets are those of the haystack, the
    /// iteration starts at the character whose offset is the start offset (or is empty where
    /// that is behind the haystack), and the line starts increase from 0 on.
    pub closed spec fn wf(&self) -> bool {
        &&& self.scanner_impl.wf()
        &&& self.chars@ == self.input@
        &&& self.offsets@[self.chars@.len() as int] < usize::MAX
        &&& byte_offsets_of(self.chars@, self.offsets@)
        &&& self.base <= self.cursor <= self.chars@.len()
        &&& self.offset <= self.byte_len() ==> self.offsets@[self.base as int] == self.offset
            && self.last_position <= self.offsets@[self.cursor as int] - self.offset
            && self.end_position <= self.offsets@[self.cursor as int] - self.offset
        &&& self.offset > self.byte_len() ==> self.base == self.chars@.len() && self.cursor == self.chars@.len()
            && self.last_position == 0 && self.end_position == 0
        &&& strictly_increasing(self.line_offsets@)
        &&& self.line_offsets@.len() >= 1
        &&& self.line_offsets@[0] == 0
    }

    /// Creates the iterator over the matches of the scanner in the haystack; the scanner starts
    /// in its first mode.
    pub fn new(scanner_impl: ScannerNfaImpl, input: &'h str) -> (r: Self)
        requires
            scanner_impl.wf(),
            byte_offset(input@, input@.len() as int) < usize::MAX,
        ensures
            r.wf(),
            r.chars() == input@,
            r.cursor() == 0,
            r.base() == 0,
            r.spec_offset() == 0,
            r.last_position() == 0,
            r.end_position() == 0,
            r.last_char() == '\0',
            r.line_offsets() == seq![0usize],
            r.scanner().modes() == scanner_impl.modes(),
            r.scanner().classes() == scanner_impl.classes(),
            r.scanner().spec_current_mode() == 0,
    {
        let chars = str_chars(input);
        let offsets = char_byte_offsets_of_str(input, &chars);
        let mut line_offsets: Vec<usize> = Vec::new();
        line_offsets.push(0);
        let mut scanner_impl = scanner_impl;
        scanner_impl.reset();
        let r = Self {
            scanner_impl,
            input,
            chars,
            offsets,
            base: 0,
            cursor: 0,
            last_position: 0,
            end_position: 0,
            last_char: '\0',
            line_offsets,
            offset: 0,
        };
        assert(r.line_offsets@ =~= seq![0usize]);
        r
    }

    /// The offset can be set: it is the offset of a character, the byte length of the haystack,
    /// or behind the haystack.
    pub open spec fn offset_allowed(&self, offset: usize) -> bool {
        offset > self.byte_len() || exists|j: int| 0 <= j <= self.chars().len() && #[trigger] self.offsets()[j] == offset
    }

    /// Lets the iteration start at the given byte offset, which is added to the positions of all
    /// matches; an offset behind the haystack is set to its length, and the iteration is empty.
    pub fn set_offset(&mut self, offset: usize)
        requires
            old(self).wf(),
            old(self).offset_allowed(offset),
        ensures
            final(self).wf(),
            final(self).spec_offset() == (if offset <= old(self).byte_len() { offset } else { old(self).byte_len() }),
            final(self).last_position() == 0,
            final(self).end_position() == 0,
            offset <= old(self).byte_len() ==> final(self).offsets()[final(self).cursor() as int] == offset,
            offset > old(self).byte_len() ==> final(self).cursor() == old(self).chars().len(),
            final(self).base() == final(self).cursor(),
            final(self).chars() == old(self).chars(),
            final(self).offsets() == old(self).offsets(),
            final(self).last_char() == old(self).last_char(),
            final(self).line_offsets() == old(self).line_offsets(),
            final(self).scanner() == old(self).scanner(),
    {
        let n = self.chars.len();
        if offset <= self.offsets[n] {
            let mut j: usize = 0;
            while j < n && self.offsets[j] != offset
                invariant
                    self.wf(),
                    n == self.chars@.len(),
                    j <= n,
                    offset <= self.offsets@[n as int],
                    exists|i: int| j <= i <= n && #[trigger] self.offsets@[i] == offset,
                decreases n - j,
            {
                j = j + 1;
            }
            assert(self.offsets@[j as int] == offset);
            proof {
                lemma_byte_offset_mono(self.chars@, j as int, n as int);
            }
            self.base = j;
            self.cursor = j;
            self.offset = offset;
        } else {
            self.base = n;
            self.cursor = n;
            self.offset = self.offsets[n];
        }
        self.last_position = 0;
        self.end_position = 0;
    }

    /// The iterator starting at the given byte offset; see [Self::set_offset].
    pub fn with_offset(self, offset: usize) -> (r: Self)
        requires
            self.wf(),
            self.offset_allowed(offset),
        ensures
            r.wf(),
            r.spec_offset() == (if offset <= self.byte_len() { offset } else { self.byte_len() }),
            r.last_position() == 0,
            r.end_position() == 0,
            offset <= self.byte_len() ==> r.offsets()[r.cursor() as int] == offset,
            offset > self.byte_len() ==> r.cursor() == self.chars().len(),
            r.base() == r.cursor(),
            r.chars() == self.chars(),
            r.offsets() == self.offsets(),
            r.last_char() == self.last_char(),
            r.line_offsets() == self.line_offsets(),
            r.scanner() == self.scanner(),
    {
        let mut me = self;
        me.set_offset(offset);
        me
    }

    /// The byte offset just behind the characters read last by [Self::advance_to]: after a
    /// match was found, the end of that match.
    pub fn offset(&self) -> (r: usize)
        requires
            self.wf(),
        ensures
            r == self.end_position() + self.spec_offset(),
    {
        proof {
            lemma_byte_offset_mono(self.chars@, self.cursor as int, self.chars@.len() as int);
        }
        self.end_position + self.offset
    }

    /// The line and column of a byte offset: the line is the number of the last line start not
    /// behind the offset, the column the distance from that line start plus one. The column
    /// counts bytes, so it differs from the number of characters where the line holds
    /// characters of more than one byte.
    pub fn position(&self, offset: usize) -> (r: Position)
        requires
            self.wf(),
            offset < usize::MAX,
        ensures
            position_at(self.line_offsets(), offset, r),
    {
        let lo = &self.line_offsets;
        let mut low: usize = 0;
        let mut high: usize = lo.len();
        // Binary search for the number of line starts not behind the offset.
        while low < high
            invariant
                strictly_increasing(lo@),
                lo@.len() >= 1,
                lo@[0] == 0,
                low <= high <= lo@.len(),
                forall|i: int| 0 <= i < low ==> lo@[i] <= offset,
                forall|i: int| high <= i < lo@.len() ==> lo@[i] > offset,
            decreases high - low,
        {
            let mid = low + (high - low) / 2;
            if lo[mid] <= offset {
                low = mid + 1;
            } else {
                high = mid;
            }
        }
        assert(low >= 1);
        let j = low - 1;
        assert(self.line_offsets() == lo@);
        assert(line_of(self.line_offsets(), offset, j as int));
        Position::new(j + 1, offset - lo[j] + 1)
    }

    /// Records the line start at byte offset `i` if the last character read is a line feed,
    /// and makes `c` the last character read.
    fn record_line_offset(&mut self, i: usize, c: char)
        requires
            old(self).wf(),
        ensures
            final(self).wf(),
            final(self).line_offsets().to_set() == old(self).line_offsets().to_set().union(
                if old(self).last_char() == '\n' { set![i] } else { Set::empty() },
            ),
            final(self).last_char() == c,
            final(self).scanner() == old(self).scanner(),
            final(self).chars() == old(self).chars(),
            final(self).offsets() == old(self).offsets(),
            final(self).base() == old(self).base(),
            final(self).cursor() == old(self).cursor(),
            final(self).last_position() == old(self).last_position(),
            final(self).end_position() == old(self).end_position(),
            final(self).spec_offset() == old(self).spec_offset(),
    {
        if self.last_char == '\n' {
            let ghost before = self.line_offsets@;
            insert_sorted(&mut self.line_offsets, i);
            proof {
                lemma_insert_keeps_first(before, self.line_offsets@, i);
                assert(self.line_offsets@.to_set() =~= before.to_set().union(set![i]));
            }
        } else {
            assert(self.line_offsets@.to_set() =~= self.line_offsets@.to_set().union(Set::empty()));
        }
        self.last_char = c;
    }

    /// Merges line starts into the recorded ones.
    fn merge_line_offsets(&mut self, line_start_offsets: Vec<usize>)
        requires
            old(self).wf(),
        ensures
            final(self).wf(),
            final(self).line_offsets().to_set() == old(self).line_offsets().to_set().union(line_start_offsets@.to_set()),
            final(self).last_char() == old(self).last_char(),
            final(self).scanner() == old(self).scanner(),
            final(self).chars() == old(self).chars(),
            final(self).offsets() == old(self).offsets(),
            final(self).base() == old(self).base(),
            final(self).cursor() == old(self).cursor(),
            final(self).last_position() == old(self).last_position(),
            final(self).end_position() == old(self).end_position(),
            final(self).spec_offset() == old(self).spec_offset(),
    {
        let mut k: usize = 0;
        while k < line_start_offsets.len()
            invariant
                self.wf(),
                k <= line_start_offsets@.len(),
                self.line_offsets@.to_set() == old(self).line_offsets@.to_set().union(line_start_offsets@.take(k as int).to_set()),
                self.last_char == old(self).last_char,
                self.scanner_impl == old(self).scanner_impl,
                self.chars@ == old(self).chars@,
                self.offsets@ == old(self).offsets@,
                self.base == old(self).base,
                self.cursor == old(self).cursor,
                self.last_position == old(self).last_position,
                self.end_position == old(self).end_position,
                self.offset == old(self).offset,
            decreases line_start_offsets@.len() - k,
        {
            let x = line_start_offsets[k];
            let ghost before = self.line_offsets@;
            insert_sorted(&mut self.line_offsets, x);
            proof {
                lemma_insert_keeps_first(before, self.line_offsets@, x);
                assert(line_start_offsets@.take(k + 1) =~= line_start_offsets@.take(k as int).push(x));
                line_start_offsets@.take(k as int).lemma_push_to_set_commute(x);
                assert(self.line_offsets@.to_set() =~= before.to_set().insert(x));
                assert(self.line_offsets@.to_set() =~= old(self).line_offsets@.to_set().union(line_start_offsets@.take(k + 1).to_set()));
            }
            k = k + 1;
        }
        assert(line_start_offsets@.take(k as int) =~= line_start_offsets@);
    }

    /// Reads the characters up to the given position (relative to the start of the iteration):
    /// up to and including the first character that ends at or behind it, or up to the end.
    /// Returns the relative position of the last character read, or the number of bytes up to
    /// the end of the haystack where no character read reaches the position (so always where
    /// the position lies behind the haystack); the result becomes the last position. Line starts
    /// met are recorded. A position before the last position reads nothing and returns the last
    /// position.
    pub fn advance_to(&mut self, position: usize) -> (r: usize)
        requires
            old(self).wf(),
        ensures
            final(self).wf(),
            position < old(self).last_position() ==> r == old(self).last_position() && *final(self) == *old(self),
            position >= old(self).last_position() ==> {
                &&& advance_stop(old(self).chars().len() as int, old(self).offsets(), old(self).base() as int,
                    old(self).cursor() as int, position, final(self).cursor() as int)
                &&& r == final(self).last_position()
                &&& r == (if final(self).cursor() > old(self).cursor() && final(self).rel(final(self).cursor() as int) >= position {
                        final(self).rel(final(self).cursor() - 1)
                    } else {
                        old(self).rest_len()
                    })
                &&& final(self).end_position() == final(self).rel(final(self).cursor() as int)
                &&& final(self).last_char() == last_read(old(self).chars(), old(self).cursor() as int, final(self).cursor() as int, old(self).last_char())
                &&& final(self).line_offsets().to_set() == old(self).line_offsets().to_set().union(
                    newline_starts(old(self).chars(), old(self).offsets(), old(self).cursor() as int, final(self).cursor() as int, old(self).last_char()))
            },
            final(self).scanner() == old(self).scanner(),
            final(self).chars() == old(self).chars(),
            final(self).offsets() == old(self).offsets(),
            final(self).base() == old(self).base(),
            final(self).spec_offset() == old(self).spec_offset(),
            position > old(self).rest_len() ==> r == old(self).rest_len(),
    {
        if position < self.last_position {
            proof {
                lemma_byte_offset_mono(self.chars@, self.cursor as int, self.chars@.len() as int);
            }
            return self.last_position;
        }
        let ghost c0 = self.cursor as int;
        let ghost lc0 = self.last_char;
        let n = self.chars.len();
        let mut new_position: usize = 0;
        let mut line_start_offsets: Vec<usize> = Vec::new();
        let mut last_char = self.last_char;
        let mut done = false;
        proof {
            lemma_newline_starts_empty(self.chars@, self.offsets@, c0, lc0);
            assert(line_start_offsets@.to_set() =~= Set::<usize>::empty());
        }
        while !done && self.cursor < n
            invariant
                self.wf(),
                n == self.chars@.len(),
                *self == (FindMatchesImpl { cursor: self.cursor, ..*old(self) }),
                c0 <= self.cursor <= n,
                done ==> c0 < self.cursor,
                forall|j: int| c0 < j < self.cursor ==> #[trigger] self.offsets@[j] - self.offsets@[self.base as int] < position,
                !done && c0 < self.cursor ==> self.offsets@[self.cursor as int] - self.offsets@[self.base as int] < position,
                done ==> self.offsets@[self.cursor as int] - self.offsets@[self.base as int] >= position,
                new_position == (if self.cursor > c0 { self.offsets@[self.cursor - 1] - self.offsets@[self.base as int] } else { 0 }),
                last_char == last_read(self.chars@, c0, self.cursor as int, lc0),
                line_start_offsets@.to_set() == newline_starts(self.chars@, self.offsets@, c0, self.cursor as int, lc0),
            decreases n - self.cursor,
        {
            let j = self.cursor;
            proof {
                lemma_byte_offset_mono(self.chars@, self.base as int, j as int);
                lemma_byte_offset_mono(self.chars@, j as int + 1, n as int);
                crate::text::lemma_byte_offset_step(self.chars@, j as int);
            }
            let i = self.offsets[j] - self.offsets[self.base];
            let c = self.chars[j];
            self.cursor = j + 1;
            proof {
                lemma_newline_starts_step(self.chars@, self.offsets@, c0, j as int, lc0);
            }
            if last_char == '\n' {
                let ghost before = line_start_offsets@;
                let x = i + self.offset;
                line_start_offsets.push(x);
                proof {
                    before.lemma_push_to_set_commute(x);
                    assert(line_start_offsets@.to_set() =~= newline_starts(self.chars@, self.offsets@, c0, self.cursor as int, lc0));
                }
            } else {
                assert(line_start_offsets@.to_set() =~= newline_starts(self.chars@, self.offsets@, c0, self.cursor as int, lc0));
            }
            last_char = c;
            new_position = i;
            if i + crate::text::utf8_width(c) >= position {
                done = true;
            }
        }
        if !line_start_offsets.is_empty() {
            self.merge_line_offsets(line_start_offsets);
        } else {
            assert(line_start_offsets@.to_set() =~= Set::<usize>::empty());
            assert(self.line_offsets@.to_set() =~= old(self).line_offsets@.to_set().union(Set::<usize>::empty()));
        }
        proof {
            lemma_byte_offset_mono(self.chars@, self.base as int, self.cursor as int);
            lemma_byte_offset_mono(self.chars@, self.cursor as int, n as int);
            if self.cursor > c0 {
                lemma_byte_offset_mono(self.chars@, self.cursor - 1, self.cursor as int);
            }
        }
        if !done {
            new_position = self.offsets[n] - self.offsets[self.base];
        }
        self.last_char = last_char;
        self.last_position = new_position;
        self.end_position = self.offsets[self.cursor] - self.offsets[self.base];
        new_position
    }

    /// The scanner mode in use.
    pub open spec fn mode_now(&self) -> CompiledScannerMode {
        self.scanner().modes()[self.scanner().spec_current_mode() as int]
    }

    /// Reads the characters of a match that starts at the cursor.
    fn advance_beyond_match(&mut self, matched: Match)
        requires
            old(self).wf(),
        ensures
            final(self).wf(),
            matched.spec_span().start >= matched.spec_span().end ==> *final(self) == *old(self),
            matched.spec_span().start < matched.spec_span().end && matched.spec_span().end >= old(self).last_position() ==> {
                &&& advance_stop(old(self).chars().len() as int, old(self).offsets(), old(self).base() as int,
                    old(self).cursor() as int, matched.spec_span().end, final(self).cursor() as int)
                &&& final(self).last_position() == (if final(self).cursor() > old(self).cursor()
                    && final(self).rel(final(self).cursor() as int) >= matched.spec_span().end {
                        final(self).rel(final(self).cursor() - 1)
                    } else {
                        old(self).rest_len()
                    })
                &&& final(self).end_position() == final(self).rel(final(self).cursor() as int)
                &&& final(self).last_char() == last_read(old(self).chars(), old(self).cursor() as int, final(self).cursor() as int, old(self).last_char())
                &&& final(self).line_offsets().to_set() == old(self).line_offsets().to_set().union(
                    newline_starts(old(self).chars(), old(self).offsets(), old(self).cursor() as int, final(self).cursor() as int, old(self).last_char()))
            },
            final(self).scanner() == old(self).scanner(),
            final(self).chars() == old(self).chars(),
            final(self).offsets() == old(self).offsets(),
            final(self).base() == old(self).base(),
            final(self).spec_offset() == old(self).spec_offset(),
    {
        if matched.is_empty() {
            return;
        }
        let end = matched.span().end;
        self.advance_to(end);
    }

    /// Returns the next match: the scanner searches at the cursor and, where nothing matches,
    /// one character further on, until a match is found or the characters are exhausted. The
    /// characters up to the end of the match are read; line starts met are recorded. A match
    /// whose token type has a transition in the current mode switches to the mode of the
    /// transition.
    #[verifier::spinoff_prover]
    pub fn next_match(&mut self) -> (r: Option<Match>)
        requires
            old(self).wf(),
            old(self).scanner().mode_valid(),
        ensures
            final(self).wf(),
            old(self).cursor() <= final(self).cursor() <= final(self).chars().len(),
            final(self).chars() == old(self).chars(),
            final(self).offsets() == old(self).offsets(),
            final(self).base() == old(self).base(),
            final(self).spec_offset() == old(self).spec_offset(),
            final(self).scanner().modes() == old(self).scanner().modes(),
            final(self).scanner().classes() == old(self).scanner().classes(),
            final(self).scanner().mode_valid() == (final(self).scanner().spec_current_mode() < final(self).scanner().modes().len()),
            r matches Some(m) ==> step_found(*old(self), *final(self), m),
            r matches Some(m) ==> {
                &&& m.spec_span().start < m.spec_span().end <= final(self).byte_len()
                &&& exists|q: int| old(self).cursor() <= q < final(self).cursor()
                    && (forall|q2: int| old(self).cursor() <= q2 < q ==> #[trigger] mode_match(old(self).mode_now(),
                        old(self).scanner().classes(), old(self).chars(), old(self).offsets(), q2, None))
                    && #[trigger] mode_match(old(self).mode_now(), old(self).scanner().classes(), old(self).chars(), old(self).offsets(), q, Some(m))
                &&& old(self).offsets()[final(self).cursor() as int] == m.spec_span().end
                &&& final(self).last_char() == old(self).chars()[final(self).cursor() - 1]
                &&& final(self).last_position() == final(self).rel(final(self).cursor() - 1)
                &&& final(self).end_position() + final(self).spec_offset() == m.spec_span().end
                &&& final(self).line_offsets().to_set() == old(self).line_offsets().to_set().union(
                    newline_starts(old(self).chars(), old(self).offsets(), old(self).cursor() as int, final(self).cursor() as int, old(self).last_char()))
                &&& final(self).scanner().spec_current_mode() == mode_after(old(self).mode_now(), old(self).scanner().spec_current_mode(), r)
            },
            r is None ==> {
                &&& forall|q: int| old(self).cursor() <= q <= old(self).chars().len() ==> #[trigger] mode_match(old(self).mode_now(),
                    old(self).scanner().classes(), old(self).chars(), old(self).offsets(), q, None)
                &&& final(self).cursor() == old(self).chars().len()
                &&& final(self).last_char() == '\0'
                &&& final(self).last_position() == old(self).last_position()
                &&& final(self).end_position() == old(self).end_position()
                &&& final(self).line_offsets().to_set() == old(self).line_offsets().to_set().union(
                    newline_starts(old(self).chars(), old(self).offsets(), old(self).cursor() as int, old(self).chars().len() as int, old(self).last_char())).union(
                    if last_read(old(self).chars(), old(self).cursor() as int, old(self).chars().len() as int, old(self).last_char()) == '\n' {
                        set![(old(self).last_position() + old(self).spec_offset()) as usize]
                    } else {
                        Set::empty()
                    })
                &&& final(self).scanner().spec_current_mode() == old(self).scanner().spec_current_mode()
            },
    {
        let ghost c0 = self.cursor as int;
        let ghost lc0 = self.last_char;
        let ghost mode0 = self.mode_now();
        let ghost cls = self.scanner_impl.classes();
        let ghost lines0 = self.line_offsets@.to_set();
        let n = self.chars.len();
        proof {
            lemma_newline_starts_empty(self.chars@, self.offsets@, c0, lc0);
            assert(lines0 =~= lines0.union(Set::<usize>::empty()));
        }
        loop
            invariant
                self.wf(),
                n == self.chars@.len(),
                self.chars@ == old(self).chars@,
                self.offsets@ == old(self).offsets@,
                self.base == old(self).base,
                self.offset == old(self).offset,
                self.last_position == old(self).last_position,
                self.end_position == old(self).end_position,
                self.scanner_impl.modes() == old(self).scanner_impl.modes(),
                self.scanner_impl.classes() == cls,
                cls == old(self).scanner_impl.classes(),
                mode0 == old(self).mode_now(),
                lines0 == old(self).line_offsets@.to_set(),
                c0 == old(self).cursor,
                lc0 == old(self).last_char,
                self.scanner_impl.spec_current_mode() == old(self).scanner_impl.spec_current_mode(),
                self.scanner_impl.mode_valid(),
                self.mode_now() == mode0,
                c0 <= self.cursor <= n,
                forall|q2: int| c0 <= q2 < self.cursor ==> #[trigger] mode_match(mode0, cls, self.chars@, self.offsets@, q2, None),
                self.last_char == last_read(self.chars@, c0, self.cursor as int, lc0),
                self.line_offsets@.to_set() == lines0.union(newline_starts(self.chars@, self.offsets@, c0, self.cursor as int, lc0)),
            decreases n - self.cursor,
        {
            let result = self.scanner_impl.find_from(&self.chars, &self.offsets, self.cursor);
            match result {
                Some(m) => {
                    let ghost q = self.cursor as int;
                    let ghost (p, k) = choose|p: usize, k: usize|
                        #[trigger] is_longest_match(mode0.nfa.automaton@, mode0.nfa.lookahead_views(), cls, self.chars@, q, Some((p, k)))
                            && p < mode0.nfa.terminal_ids@.len()
                            && m.spec_token_type() == mode0.nfa.terminal_ids@[p as int]
                            && m.spec_span() == (Span { start: self.offsets@[q], end: self.offsets@[q + k] });
                    assert(crate::compiled_nfa::match_valid(mode0.nfa.automaton@, mode0.nfa.lookahead_views(), cls, self.chars@, q, k as nat, p as int));
                    proof {
                        lemma_byte_offset_mono(self.chars@, self.base as int, q);
                        lemma_byte_offset_mono(self.chars@, c0, q);
                        lemma_byte_offset_mono(self.chars@, q + k, n as int);
                    }
                    let base_off = self.offsets[self.base];
                    let mut matched = Match::new(m.token_type(), Span::new(m.start() - base_off, m.end() - base_off));
                    let ghost before = *self;
                    self.advance_beyond_match(matched);
                    proof {
                        lemma_advance_to_end(self.chars@, self.offsets@, self.base as int, q, q + k, self.cursor as int);
                        lemma_newline_starts_concat(self.chars@, self.offsets@, c0, q, q + k, lc0);
                        assert(self.line_offsets@.to_set() =~= lines0.union(newline_starts(self.chars@, self.offsets@, c0, self.cursor as int, lc0)));
                    }
                    let ghost rel_end = matched.spec_span().end;
                    matched.add_offset(self.offset);
                    assert(mode_match(mode0, cls, self.chars@, self.offsets@, q, Some(matched)));
                    assert(self.end_position + self.offset == matched.spec_span().end);
                    return Some(matched);
                },
                None => {
                    if self.cursor < n {
                        let j = self.cursor;
                        proof {
                            lemma_byte_offset_mono(self.chars@, self.base as int, j as int);
                            lemma_byte_offset_mono(self.chars@, j as int, n as int);
                            lemma_byte_offset_mono(self.chars@, j as int, j + 1);
                            lemma_newline_starts_step(self.chars@, self.offsets@, c0, j as int, lc0);
                        }
                        let i = self.offsets[j] - self.offsets[self.base];
                        let c = self.chars[j];
                        self.cursor = j + 1;
                        self.record_line_offset(i + self.offset, c);
                        proof {
                            assert(self.line_offsets@.to_set() =~= lines0.union(newline_starts(self.chars@, self.offsets@, c0, self.cursor as int, lc0)));
                        }
                    } else {
                        proof {
                            lemma_byte_offset_mono(self.chars@, self.cursor as int, n as int);
                        }
                        self.record_line_offset(self.last_position + self.offset, '\0');
                        return None;
                    }
                },
            }
        }
    }

    /// Moves the cursor behind the characters of a non-empty match that starts there: reads up
    /// to and including the first character that ends at or behind the end of the match.
    fn advance_cursor_beyond_match(&self, cursor: &mut usize, matched: Match)
        requires
            self.wf(),
            self.base <= *old(cursor) <= self.chars@.len(),
        ensures
            self.base <= *final(cursor) <= self.chars@.len(),
            matched.spec_span().start >= matched.spec_span().end ==> *final(cursor) == *old(cursor),
            matched.spec_span().start < matched.spec_span().end ==> advance_stop(self.chars@.len() as int, self.offsets@,
                self.base as int, *old(cursor) as int, matched.spec_span().end, *final(cursor) as int),
    {
        if matched.is_empty() {
            return;
        }
        let end = matched.span().end;
        let n = self.chars.len();
        let ghost c0 = *cursor as int;
        let mut done = false;
        while !done && *cursor < n
            invariant
                self.wf(),
                n == self.chars@.len(),
                c0 <= *cursor <= n,
                self.base <= c0,
                c0 < *cursor || !done,
                forall|j: int| c0 < j < *cursor ==> #[trigger] self.offsets@[j] - self.offsets@[self.base as int] < end,
                !done && c0 < *cursor ==> self.offsets@[*cursor as int] - self.offsets@[self.base as int] < end,
                done ==> self.offsets@[*cursor as int] - self.offsets@[self.base as int] >= end,
            decreases n - *cursor,
        {
            let j = *cursor;
            proof {
                lemma_byte_offset_mono(self.chars@, self.base as int, j as int);
                lemma_byte_offset_mono(self.chars@, j as int + 1, n as int);
                crate::text::lemma_byte_offset_step(self.chars@, j as int);
            }
            let i = self.offsets[j] - self.offsets[self.base];
            let c = self.chars[j];
            *cursor = j + 1;
            if i + crate::text::utf8_width(c) >= end {
                done = true;
            }
        }
    }

    /// Peeks up to `n` matches ahead without consuming them and without switching modes: the
    /// matches are searched one after the other from the cursor on; the search stops where
    /// nothing matches and behind a match whose token type has a mode transition in the
    /// current mode.
    pub fn peek_n(&mut self, n: usize) -> (r: PeekResult)
        requires
            old(self).wf(),
            old(self).scanner().mode_valid(),
        ensures
            *final(self) == *old(self),
            peek_result_is(r, peek_spec(old(self).mode_now(), old(self).scanner().classes(), old(self).chars(),
                old(self).offsets(), old(self).cursor() as int, n as nat), n as nat),
    {
        let ghost mode0 = self.mode_now();
        let ghost cls = self.scanner_impl.classes();
        let ghost full = peek_spec(mode0, cls, self.chars@, self.offsets@, self.cursor as int, n as nat);
        let mut cursor = self.cursor;
        let mut matches: Vec<Match> = Vec::new();
        let mut mode_switch = false;
        let mut new_mode: usize = 0;
        let mut count: usize = 0;
        let mut stop = false;
        assert(match_items(matches@) =~= Seq::<(usize, Span)>::empty());
        assert(full.0 =~= match_items(matches@) + full.0);
        while count < n && !stop
            invariant
                self.wf(),
                self.scanner_impl.mode_valid(),
                mode0 == self.mode_now(),
                cls == self.scanner_impl.classes(),
                full == peek_spec(mode0, cls, self.chars@, self.offsets@, old(self).cursor as int, n as nat),
                self.base <= cursor <= self.chars@.len(),
                count <= n,
                matches@.len() == count,
                !stop ==> full.0 == match_items(matches@) + peek_spec(mode0, cls, self.chars@, self.offsets@, cursor as int, (n - count) as nat).0
                    && full.1 == peek_spec(mode0, cls, self.chars@, self.offsets@, cursor as int, (n - count) as nat).1,
                stop ==> full.0 == match_items(matches@) && full.1 == (if mode_switch { Some(new_mode) } else { None }),
                !stop ==> !mode_switch,
            decreases (n - count) * 2 + (if stop { 0int } else { 1int }),
        {
            let ghost rem = peek_spec(mode0, cls, self.chars@, self.offsets@, cursor as int, (n - count) as nat);
            let result = self.scanner_impl.peek_from(&self.chars, &self.offsets, cursor);
            match result {
                Some(m) => {
                    let ghost q = cursor as int;
                    let ghost (p, k) = choose|p: usize, k: usize|
                        #[trigger] is_longest_match(mode0.nfa.automaton@, mode0.nfa.lookahead_views(), cls, self.chars@, q, Some((p, k)))
                            && p < mode0.nfa.terminal_ids@.len()
                            && m.spec_token_type() == mode0.nfa.terminal_ids@[p as int]
                            && m.spec_span() == (Span { start: self.offsets@[q], end: self.offsets@[q + k] });
                    assert(crate::compiled_nfa::match_valid(mode0.nfa.automaton@, mode0.nfa.lookahead_views(), cls, self.chars@, q, k as nat, p as int));
                    proof {
                        lemma_longest_at(mode0.nfa.automaton@, mode0.nfa.lookahead_views(), cls, self.chars@, q, Some((p, k)));
                        lemma_byte_offset_mono(self.chars@, self.base as int, q);
                        lemma_byte_offset_mono(self.chars@, q + k, self.chars@.len() as int);
                    }
                    let token_type = m.token_type();
                    let base_off = self.offsets[self.base];
                    let mut matched = Match::new(token_type, Span::new(m.start() - base_off, m.end() - base_off));
                    self.advance_cursor_beyond_match(&mut cursor, matched);
                    proof {
                        lemma_advance_to_end(self.chars@, self.offsets@, self.base as int, q, q + k, cursor as int);
                    }
                    matched.add_offset(self.offset);
                    let ghost before = matches@;
                    matches.push(matched);
                    proof {
                        assert(match_items(matches@) =~= match_items(before).push((token_type, m.spec_span())));
                    }
                    count = count + 1;
                    match self.scanner_impl.has_transition(token_type) {
                        Some(mode) => {
                            mode_switch = true;
                            new_mode = mode;
                            stop = true;
                            assert(full.0 =~= match_items(matches@));
                        },
                        None => {
                            let ghost rest = peek_spec(mode0, cls, self.chars@, self.offsets@, cursor as int, (n - count) as nat);
                            assert(rem.0 =~= seq![(token_type, m.spec_span())] + rest.0);
                            assert(full.0 =~= match_items(matches@) + rest.0);
                        },
                    }
                },
                None => {
                    proof {
                        lemma_longest_at(mode0.nfa.automaton@, mode0.nfa.lookahead_views(), cls, self.chars@, cursor as int, None);
                        assert(full.0 =~= match_items(matches@));
                    }
                    stop = true;
                },
            }
        }
        if !stop {
            assert(full.0 =~= match_items(matches@));
        }
        if mode_switch {
            PeekResult::MatchesReachedModeSwitch((matches, new_mode))
        } else if matches.len() == n {
            PeekResult::Matches(matches)
        } else if matches.len() == 0 {
            PeekResult::NotFound
        } else {
            PeekResult::MatchesReachedEnd(matches)
        }
    }

    /// What a consistent iterator guarantees of its positions.
    pub proof fn lemma_wf_facts(&self)
        requires
            self.wf(),
        ensures
            self.byte_len() < usize::MAX,
            self.base() <= self.cursor() <= self.chars().len(),
            self.offsets().len() == self.chars().len() + 1,
            forall|i: int, j: int| 0 <= i < j <= self.chars().len() ==> #[trigger] self.offsets()[i] < #[trigger] self.offsets()[j],
    {
        assert forall|i: int, j: int| 0 <= i < j <= self.chars().len() implies #[trigger] self.offsets()[i] < #[trigger] self.offsets()[j] by {
            lemma_byte_offset_mono(self.chars(), i, j);
        }
    }

    /// The number of characters of the haystack.
    pub fn chars_len(&self) -> (r: usize)
        ensures
            r == self.chars().len(),
    {
        self.chars.len()
    }

    /// The current scanner mode.
    pub fn current_mode(&self) -> (r: usize)
        ensures
            r == self.scanner().spec_current_mode(),
    {
        self.scanner_impl.current_mode()
    }

    /// Sets the current scanner mode.
    pub fn set_mode(&mut self, mode: usize)
        ensures
            old(self).wf() ==> final(self).wf(),
            final(self).scanner().spec_current_mode() == mode,
            final(self).scanner().modes() == old(self).scanner().modes(),
            final(self).scanner().classes() == old(self).scanner().classes(),
            final(self).scanner().mode_valid() == (mode < old(self).scanner().modes().len()),
            final(self).chars() == old(self).chars(),
            final(self).offsets() == old(self).offsets(),
            final(self).base() == old(self).base(),
            final(self).cursor() == old(self).cursor(),
            final(self).last_position() == old(self).last_position(),
            final(self).end_position() == old(self).end_position(),
            final(self).last_char() == old(self).last_char(),
            final(self).line_offsets() == old(self).line_offsets(),
            final(self).spec_offset() == old(self).spec_offset(),
    {
        self.scanner_impl.set_mode(mode);
    }

    /// The name of the scanner mode with the given index; `None` if there is no such mode.
    pub fn mode_name(&self, index: usize) -> (r: Option<&str>)
        ensures
            index < self.scanner().modes().len() ==> (r matches Some(n) && n@ == self.scanner().modes()[index as int].name@),
            index >= self.scanner().modes().len() ==> r is None,
    {
        self.scanner_impl.mode_name(index)
    }

    /// The number of scanner modes.
    pub fn mode_count(&self) -> (r: usize)
        ensures
            r == self.scanner().modes().len(),
    {
        self.scanner_impl.mode_count()
    }
}


/// Inserting into a strictly increasing sequence that starts with 0 keeps it starting with 0.
proof fn lemma_insert_keeps_first(before: Seq<usize>, after: Seq<usize>, x: usize)
    requires
        strictly_increasing(before),
        before.len() >= 1,
        before[0] == 0,
        strictly_increasing(after),
        forall|y: usize| after.contains(y) <==> (before.contains(y) || y == x),
    ensures
        after.len() >= 1,
        after[0] == 0,
        after.to_set() == before.to_set().insert(x),
{
    assert(before.contains(0usize));
    assert(after.contains(0usize));
    let k = choose|k: int| 0 <= k < after.len() && after[k] == 0usize;
    if k > 0 {
        assert(after[0] < after[k]);
    }
    assert(after.to_set() =~= before.to_set().insert(x));
}

} // verus!
