//! The iterator over all non-overlapping matches of a scanner in a haystack.
use vstd::prelude::*;
use crate::find_matches_impl::{
    lemma_scan_none, lemma_scan_step, match_items, peek_result_is, peek_spec, scan_from, scan_of, step_found, FindMatchesImpl,
};
use crate::span::Span;
use crate::scanner_nfa_impl::{mode_after, mode_match};
use crate::match_type::Match;
use crate::position::{Position, PositionProvider};
use crate::scanner::ScannerModeSwitcher;
use crate::scanner_nfa_impl::ScannerNfaImpl;
use crate::text::byte_offset;

verus! {

/// The result of a peek operation.
#[derive(Debug, PartialEq, Eq)]
pub enum PeekResult {
    /// The peek operation found n matches.
    Matches(Vec<Match>),
    /// The peek operation found less than n matches because the end of the haystack was reached.
    MatchesReachedEnd(Vec<Match>),
    /// The peek operation found less than or exactly n matches because the last match triggers
    /// a mode switch; the new mode is given.
    MatchesReachedModeSwitch((Vec<Match>, usize)),
    /// The peek operation found no match.
    NotFound,
}

/// An iterator over all non-overlapping matches.
#[derive(Debug)]
pub struct FindMatches<'h> {
    /// The search state.
    inner: FindMatchesImpl<'h>,
}

impl<'h> FindMatches<'h> {
    /// The search state.
    pub closed spec fn state(&self) -> FindMatchesImpl<'h> {
        self.inner
    }

    /// Creates the iterator over the matches of the scanner in the haystack; the scanner starts
    /// in its first mode.
    pub fn new(scanner_impl: ScannerNfaImpl, input: &'h str) -> (r: Self)
        requires
            scanner_impl.wf(),
            byte_offset(input@, input@.len() as int) < usize::MAX,
        ensures
            r.state().wf(),
            r.state().chars() == input@,
            r.state().cursor() == 0,
            r.state().spec_offset() == 0,
            r.state().line_offsets() == seq![0usize],
            r.state().scanner().modes() == scanner_impl.modes(),
            r.state().scanner().classes() == scanner_impl.classes(),
            r.state().scanner().spec_current_mode() == 0,
    {
        Self { inner: FindMatchesImpl::new(scanner_impl, input) }
    }

    /// The iterator starting at the given byte offset, which is added to the positions of all
    /// matches; an offset behind the haystack is set to its length.
    pub fn with_offset(self, offset: usize) -> (r: Self)
        requires
            self.state().wf(),
            self.state().offset_allowed(offset),
        ensures
            r.state().wf(),
            r.state().spec_offset() == (if offset <= self.state().byte_len() { offset } else { self.state().byte_len() }),
            offset <= self.state().byte_len() ==> r.state().offsets()[r.state().cursor() as int] == offset,
            offset > self.state().byte_len() ==> r.state().cursor() == self.state().chars().len(),
            r.state().scanner() == self.state().scanner(),
            r.state().line_offsets() == self.state().line_offsets(),
    {
        Self { inner: self.inner.with_offset(offset) }
    }

    /// The current byte offset from the start of the haystack: the end of the last match found
    /// (or of the characters read last by [Self::advance_to]).
    pub fn offset(&self) -> (r: usize)
        requires
            self.state().wf(),
        ensures
            r == self.state().end_position() + self.state().spec_offset(),
    {
        self.inner.offset()
    }

    /// Returns the next match; see [FindMatchesImpl::next_match].
    pub fn next_match(&mut self) -> (r: Option<Match>)
        requires
            old(self).state().wf(),
            old(self).state().scanner().mode_valid(),
        ensures
            final(self).state().wf(),
            final(self).state().cursor() >= old(self).state().cursor(),
            r is Some ==> final(self).state().cursor() > old(self).state().cursor(),
            r matches Some(m) ==> m.spec_span().start < m.spec_span().end <= final(self).state().byte_len(),
            r matches Some(m) ==> final(self).state().end_position() + final(self).state().spec_offset() == m.spec_span().end,
            r is None ==> final(self).state().end_position() == old(self).state().end_position(),
            r is None ==> final(self).state().cursor() == final(self).state().chars().len(),
            final(self).state().chars() == old(self).state().chars(),
            final(self).state().scanner().modes() == old(self).state().scanner().modes(),
            final(self).state().scanner().classes() == old(self).state().scanner().classes(),
            r is None ==> final(self).state().scanner().spec_current_mode() == old(self).state().scanner().spec_current_mode(),
            final(self).state().offsets() == old(self).state().offsets(),
            r matches Some(m) ==> step_found(old(self).state(), final(self).state(), m),
            r matches Some(m) ==> exists|q: int| old(self).state().cursor() <= q < final(self).state().cursor()
                && (forall|q2: int| old(self).state().cursor() <= q2 < q ==> #[trigger] mode_match(old(self).state().mode_now(),
                    old(self).state().scanner().classes(), old(self).state().chars(), old(self).state().offsets(), q2, None))
                && #[trigger] mode_match(old(self).state().mode_now(), old(self).state().scanner().classes(),
                    old(self).state().chars(), old(self).state().offsets(), q, Some(m)),
            r is Some ==> final(self).state().scanner().spec_current_mode() == mode_after(old(self).state().mode_now(),
                old(self).state().scanner().spec_current_mode(), r),
            r is None ==> forall|q: int| old(self).state().cursor() <= q <= old(self).state().chars().len() ==>
                #[trigger] mode_match(old(self).state().mode_now(), old(self).state().scanner().classes(),
                old(self).state().chars(), old(self).state().offsets(), q, None),
    {
        self.inner.next_match()
    }

    /// Returns the next match, like [Self::next_match].
    pub fn next(&mut self) -> (r: Option<Match>)
        requires
            old(self).state().wf(),
            old(self).state().scanner().mode_valid(),
        ensures
            final(self).state().wf(),
            final(self).state().cursor() >= old(self).state().cursor(),
            r is Some ==> final(self).state().cursor() > old(self).state().cursor(),
            r is None ==> final(self).state().cursor() == final(self).state().chars().len(),
            final(self).state().chars() == old(self).state().chars(),
            final(self).state().scanner().modes() == old(self).state().scanner().modes(),
            final(self).state().scanner().classes() == old(self).state().scanner().classes(),
            r is None ==> final(self).state().scanner().spec_current_mode() == old(self).state().scanner().spec_current_mode(),
            final(self).state().offsets() == old(self).state().offsets(),
            r matches Some(m) ==> step_found(old(self).state(), final(self).state(), m),
            r matches Some(m) ==> exists|q: int| old(self).state().cursor() <= q < final(self).state().cursor()
                && (forall|q2: int| old(self).state().cursor() <= q2 < q ==> #[trigger] mode_match(old(self).state().mode_now(),
                    old(self).state().scanner().classes(), old(self).state().chars(), old(self).state().offsets(), q2, None))
                && #[trigger] mode_match(old(self).state().mode_now(), old(self).state().scanner().classes(),
                    old(self).state().chars(), old(self).state().offsets(), q, Some(m)),
            r is Some ==> final(self).state().scanner().spec_current_mode() == mode_after(old(self).state().mode_now(),
                old(self).state().scanner().spec_current_mode(), r),
            r is None ==> forall|q: int| old(self).state().cursor() <= q <= old(self).state().chars().len() ==>
                #[trigger] mode_match(old(self).state().mode_now(), old(self).state().scanner().classes(),
                old(self).state().chars(), old(self).state().offsets(), q, None),
    {
        self.next_match()
    }

    /// All further matches, in order, as long as the current mode is one of the scanner's modes:
    /// the scan from the iterator's position (see [scan_from]). The matches are not empty, do not
    /// overlap and come in the order of the haystack.
    pub fn collect(self) -> (r: Vec<Match>)
        requires
            self.state().wf(),
        ensures
            match_items(r@) == scan_of(self.state()),
            forall|i: int| 0 <= i < r@.len() ==> #[trigger] r@[i].spec_span().start < r@[i].spec_span().end,
            forall|i: int| 0 <= i < r@.len() - 1 ==> #[trigger] r@[i].spec_span().end <= r@[i + 1].spec_span().start,
            r@.len() > 0 ==> self.state().offsets()[self.state().cursor() as int] <= r@[0].spec_span().start,
    {
        let ghost s0 = self.state();
        let mut me = self;
        proof {
            me.state().lemma_wf_facts();
        }
        let mut matches: Vec<Match> = Vec::new();
        let n = me.inner.chars_len();
        while me.inner.current_mode() < me.inner.mode_count()
            invariant_except_break
                matches@.len() == 0 ==> me.state().cursor() == s0.cursor(),
                matches@.len() > 0 ==> matches@[matches@.len() - 1].spec_span().end == s0.offsets()[me.state().cursor() as int],
            invariant
                me.state().wf(),
                match_items(matches@) + scan_of(me.state()) == scan_of(s0),
                n == me.state().chars().len(),
                me.state().cursor() <= n,
                me.state().offsets() == s0.offsets(),
                forall|i: int| 0 <= i < matches@.len() ==> #[trigger] matches@[i].spec_span().start < matches@[i].spec_span().end,
                forall|i: int| 0 <= i < matches@.len() - 1 ==> #[trigger] matches@[i].spec_span().end <= matches@[i + 1].spec_span().start,
                matches@.len() > 0 ==> s0.offsets()[s0.cursor() as int] <= matches@[0].spec_span().start,
            ensures
                scan_of(me.state()) == Seq::<(usize, Span)>::empty(),
            decreases n - me.state().cursor(),
        {
            let ghost before = me.state();
            let ghost items = match_items(matches@);
            match me.next_match() {
                Some(m) => {
                    proof {
                        lemma_scan_step(before, me.state(), m);
                    }
                    matches.push(m);
                    assert(match_items(matches@) == items + seq![(m.spec_token_type(), m.spec_span())]);
                },
                None => {
                    proof {
                        lemma_scan_none(before, me.state());
                    }
                    break;
                },
            }
            proof {
                me.state().lemma_wf_facts();
            }
        }
        matches
    }

    /// Peeks up to `n` matches ahead without consuming them and without switching modes; see
    /// [FindMatchesImpl::peek_n].
    pub fn peek_n(&mut self, n: usize) -> (r: PeekResult)
        requires
            old(self).state().wf(),
            old(self).state().scanner().mode_valid(),
        ensures
            *final(self) == *old(self),
            peek_result_is(r, peek_spec(old(self).state().mode_now(), old(self).state().scanner().classes(),
                old(self).state().chars(), old(self).state().offsets(), old(self).state().cursor() as int, n as nat), n as nat),
    {
        self.inner.peek_n(n)
    }

    /// Reads the characters up to the given position; see [FindMatchesImpl::advance_to].
    pub fn advance_to(&mut self, position: usize) -> (r: usize)
        requires
            old(self).state().wf(),
        ensures
            final(self).state().wf(),
            r == final(self).state().last_position(),
            position < old(self).state().last_position() ==> r == old(self).state().last_position() && *final(self) == *old(self),
            position > old(self).state().rest_len() ==> r == old(self).state().rest_len(),
            position >= old(self).state().last_position() ==> r == (if final(self).state().cursor() > old(self).state().cursor()
                && final(self).state().rel(final(self).state().cursor() as int) >= position {
                    final(self).state().rel(final(self).state().cursor() - 1)
                } else {
                    old(self).state().rest_len()
                }),
            final(self).state().cursor() >= old(self).state().cursor(),
            final(self).state().scanner() == old(self).state().scanner(),
    {
        self.inner.advance_to(position)
    }
}

impl<'h> PositionProvider for FindMatches<'h> {
    open spec fn provides_positions(&self) -> bool {
        self.state().wf()
    }

    open spec fn offset_allowed(&self, offset: usize) -> bool {
        self.state().wf() && self.state().offset_allowed(offset)
    }

    /// The line and column of a byte offset; see [FindMatchesImpl::position].
    fn position(&self, offset: usize) -> (r: Position)
        ensures
            crate::find_matches_impl::position_at(self.state().line_offsets(), offset, r),
    {
        self.inner.position(offset)
    }

    /// Lets the iteration start at the given byte offset; see [FindMatchesImpl::set_offset].
    fn set_offset(&mut self, offset: usize)
        ensures
            final(self).state().wf(),
            final(self).state().spec_offset() == (if offset <= old(self).state().byte_len() { offset } else { old(self).state().byte_len() }),
            final(self).state().scanner() == old(self).state().scanner(),
            final(self).state().line_offsets() == old(self).state().line_offsets(),
    {
        self.inner.set_offset(offset);
    }
}

impl<'h> ScannerModeSwitcher for FindMatches<'h> {
    /// Sets the current scanner mode.
    fn set_mode(&mut self, mode: usize)
        ensures
            final(self).state().scanner().spec_current_mode() == mode,
            old(self).state().wf() ==> final(self).state().wf(),
            final(self).state().scanner().modes() == old(self).state().scanner().modes(),
            final(self).state().scanner().classes() == old(self).state().scanner().classes(),
            final(self).state().cursor() == old(self).state().cursor(),
    {
        self.inner.set_mode(mode);
    }

    /// The current scanner mode.
    fn current_mode(&self) -> (r: usize)
        ensures
            r == self.state().scanner().spec_current_mode(),
    {
        self.inner.current_mode()
    }

    /// The name of the scanner mode with the given index; `None` if there is no such mode.
    fn mode_name(&self, index: usize) -> (r: Option<&str>)
        ensures
            index < self.state().scanner().modes().len() ==> (r matches Some(n) && n@ == self.state().scanner().modes()[index as int].name@),
            index >= self.state().scanner().modes().len() ==> r is None,
    {
        self.inner.mode_name(index)
    }
}

} // verus!
