//! Matches together with the line and column positions of their start and end.
use vstd::prelude::*;
use crate::find_matches::FindMatches;
use crate::find_matches_impl::{position_at, step_found};
use crate::match_type::{Match, MatchExt};
use crate::scanner_nfa_impl::mode_match;
use crate::position::{Position, PositionProvider};
use crate::scanner::ScannerModeSwitcher;

verus! {

/// An iterator over all non-overlapping matches with positions.
#[derive(Debug)]
pub struct WithPositions<'h> {
    /// The iterator over the matches.
    iter: FindMatches<'h>,
}

impl<'h> WithPositions<'h> {
    /// The iterator over the matches.
    pub closed spec fn iter(&self) -> FindMatches<'h> {
        self.iter
    }

    /// Create a new `WithPositions` iterator.
    pub fn new(iter: FindMatches<'h>) -> (r: Self)
        ensures
            r.iter() == iter,
    {
        Self { iter }
    }

    /// Returns the next match with the positions of its start and end, computed from the line
    /// starts recorded up to the end of the match.
    pub fn next(&mut self) -> (r: Option<MatchExt>)
        requires
            old(self).iter().state().wf(),
            old(self).iter().state().scanner().mode_valid(),
        ensures
            final(self).iter().state().wf(),
            final(self).iter().state().cursor() >= old(self).iter().state().cursor(),
            r is Some ==> final(self).iter().state().cursor() > old(self).iter().state().cursor(),
            r is None ==> final(self).iter().state().cursor() == final(self).iter().state().chars().len(),
            final(self).iter().state().chars() == old(self).iter().state().chars(),
            final(self).iter().state().scanner().modes() == old(self).iter().state().scanner().modes(),
            r matches Some(me) ==> position_at(final(self).iter().state().line_offsets(), me.spec_span().start, me.spec_start_position())
                && position_at(final(self).iter().state().line_offsets(), me.spec_span().end, me.spec_end_position()),
            r matches Some(me) ==> exists|m: Match| {
                &&& m.spec_token_type() == me.spec_token_type()
                &&& m.spec_span() == me.spec_span()
                &&& #[trigger] step_found(old(self).iter().state(), final(self).iter().state(), m)
                &&& exists|q: int| old(self).iter().state().cursor() <= q < final(self).iter().state().cursor()
                    && (forall|q2: int| old(self).iter().state().cursor() <= q2 < q ==> #[trigger] mode_match(old(self).iter().state().mode_now(),
                        old(self).iter().state().scanner().classes(), old(self).iter().state().chars(), old(self).iter().state().offsets(), q2, None))
                    && #[trigger] mode_match(old(self).iter().state().mode_now(), old(self).iter().state().scanner().classes(),
                        old(self).iter().state().chars(), old(self).iter().state().offsets(), q, Some(m))
            },
            r is None ==> forall|q: int| old(self).iter().state().cursor() <= q <= old(self).iter().state().chars().len() ==>
                #[trigger] mode_match(old(self).iter().state().mode_now(), old(self).iter().state().scanner().classes(),
                old(self).iter().state().chars(), old(self).iter().state().offsets(), q, None),
    {
        match self.iter.next_match() {
            Some(m) => {
                proof {
                    self.iter.state().lemma_wf_facts();
                }
                let start_position = self.iter.position(m.start());
                let end_position = self.iter.position(m.end());
                let me = MatchExt::new(m.token_type(), m.span(), start_position, end_position);
                assert(step_found(old(self).iter().state(), self.iter().state(), m));
                Some(me)
            },
            None => None,
        }
    }
}

/// An extension for iterators over matches.
pub trait MatchExtIterator<'h>: Sized {
    /// An iterator that yields matches with positions.
    fn with_positions(self) -> WithPositions<'h>;
}

impl<'h> MatchExtIterator<'h> for FindMatches<'h> {
    /// An iterator that yields the matches with their positions.
    fn with_positions(self) -> (r: WithPositions<'h>)
        ensures
            r.iter() == self,
    {
        WithPositions::new(self)
    }
}

impl<'h> PositionProvider for WithPositions<'h> {
    open spec fn provides_positions(&self) -> bool {
        self.iter().state().wf()
    }

    open spec fn offset_allowed(&self, offset: usize) -> bool {
        self.iter().state().wf() && self.iter().state().offset_allowed(offset)
    }

    /// The line and column of a byte offset.
    fn position(&self, offset: usize) -> (r: Position)
        ensures
            position_at(self.iter().state().line_offsets(), offset, r),
    {
        self.iter.position(offset)
    }

    /// Lets the iteration start at the given byte offset.
    fn set_offset(&mut self, offset: usize)
        ensures
            final(self).iter().state().wf(),
            final(self).iter().state().spec_offset() == (if offset <= old(self).iter().state().byte_len() { offset } else { old(self).iter().state().byte_len() }),
    {
        self.iter.set_offset(offset);
    }
}

impl<'h> ScannerModeSwitcher for WithPositions<'h> {
    /// Sets the current scanner mode.
    fn set_mode(&mut self, mode: usize)
        ensures
            final(self).iter().state().scanner().spec_current_mode() == mode,
            old(self).iter().state().wf() ==> final(self).iter().state().wf(),
    {
        self.iter.set_mode(mode);
    }

    /// The current scanner mode.
    fn current_mode(&self) -> (r: usize)
        ensures
            r == self.iter().state().scanner().spec_current_mode(),
    {
        self.iter.current_mode()
    }

    /// The name of the scanner mode with the given index; `None` if there is no such mode.
    fn mode_name(&self, index: usize) -> (r: Option<&str>)
        ensures
            index < self.iter().state().scanner().modes().len() ==> (r matches Some(n) && n@ == self.iter().state().scanner().modes()[index as int].name@),
            index >= self.iter().state().scanner().modes().len() ==> r is None,
    {
        self.iter.mode_name(index)
    }
}

} // verus!
