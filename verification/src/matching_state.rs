//! The state of an automaton while it searches for the longest match: whether and where a match
//! started, where the last match ended, and whether that match is known to be the longest.
use vstd::prelude::*;
use crate::span::Span;
use crate::text::utf8_width;

verus! {

/// The state enumeration of the matching.
#[derive(Debug, Clone, Copy, PartialEq, Eq, Structural)]
pub enum InnerMatchingState {
    /// No match recorded so far; the search continues on the next character. A transition to a
    /// non-accepting state records the start of a match (`Start`), one to an accepting state
    /// records a match (`Accepting`), no transition stays here.
    NoMatch,
    /// The start of a match has been recorded; the search for an accepting state continues. A
    /// transition to an accepting state records the match (`Accepting`); no transition resets
    /// the match (`NoMatch`).
    Start,
    /// A match has been recorded; the search for a longer match continues. No transition makes
    /// it the longest match (`Longest`); a transition to an accepting state records the longer
    /// match.
    Accepting,
    /// The recorded match is the longest match; this state can't be left.
    Longest,
}

/// The state of the automaton during matching.
#[derive(Debug, Clone, Copy, PartialEq, Eq, Structural)]
pub struct MatchingState {
    /// The current state number of the automaton.
    pub current_state: usize,
    /// The state of the matching.
    pub state: InnerMatchingState,
    /// The start position of the current match.
    pub start_position: Option<usize>,
    /// The end position of the current match.
    pub end_position: Option<usize>,
}

/// The initial matching state: no match, state number 0.
pub open spec fn initial_matching_state() -> MatchingState {
    MatchingState { current_state: 0, state: InnerMatchingState::NoMatch, start_position: None, end_position: None }
}

/// The matching state after no transition was found.
pub open spec fn after_no_transition(s: MatchingState) -> MatchingState {
    match s.state {
        InnerMatchingState::NoMatch => s,
        InnerMatchingState::Start => initial_matching_state(),
        InnerMatchingState::Accepting => MatchingState { state: InnerMatchingState::Longest, ..s },
        InnerMatchingState::Longest => s,
    }
}

/// The matching state after a transition to a non-accepting state at position `i`.
pub open spec fn after_non_accepting(s: MatchingState, i: usize) -> MatchingState {
    match s.state {
        InnerMatchingState::NoMatch => MatchingState { state: InnerMatchingState::Start, start_position: Some(i), ..s },
        _ => s,
    }
}

/// The matching state after a transition to an accepting state on `c` at position `i`.
pub open spec fn after_accepting(s: MatchingState, i: usize, c: char) -> MatchingState {
    let end = (i + vstd::utf8::encode_scalar(c as u32).len()) as usize;
    match s.state {
        InnerMatchingState::NoMatch => MatchingState {
            current_state: 0,
            state: InnerMatchingState::Accepting,
            start_position: Some(i),
            end_position: Some(end),
        },
        InnerMatchingState::Start => MatchingState { state: InnerMatchingState::Accepting, end_position: Some(end), ..s },
        InnerMatchingState::Accepting => MatchingState { end_position: Some(end), ..s },
        InnerMatchingState::Longest => s,
    }
}

/// The recorded positions fit the state: a start is recorded exactly where the state is not
/// `NoMatch`, and an end exactly in the states `Accepting` and `Longest`. Every state reached
/// from [MatchingState::new] by the transitions has them so (see
/// [lemma_transitions_keep_records]).
pub open spec fn records_fit(s: MatchingState) -> bool {
    &&& (s.start_position is Some <==> s.state != InnerMatchingState::NoMatch)
    &&& (s.end_position is Some <==> (s.state == InnerMatchingState::Accepting || s.state == InnerMatchingState::Longest))
}

/// The initial state has its records fitting, and every transition, as well as setting the
/// automaton's state number, keeps them so.
pub proof fn lemma_transitions_keep_records(s: MatchingState, i: usize, c: char, n: usize)
    requires
        records_fit(s),
    ensures
        records_fit(initial_matching_state()),
        records_fit(after_no_transition(s)),
        records_fit(after_non_accepting(s, i)),
        records_fit(after_accepting(s, i, c)),
        records_fit(MatchingState { current_state: n, ..s }),
{
}

/// In a state whose records fit, in particular in every state reached from
/// [MatchingState::new], a last match exists exactly in the states `Accepting` and `Longest`.
pub proof fn lemma_last_match_exactly_when_accepting(s: MatchingState)
    requires
        records_fit(s),
    ensures
        (s.start_position is Some && s.end_position is Some)
            <==> (s.state == InnerMatchingState::Accepting || s.state == InnerMatchingState::Longest),
{
}

impl MatchingState {
    /// Create a new matching state.
    pub fn new() -> (r: Self)
        ensures
            r == initial_matching_state(),
    {
        MatchingState { current_state: 0, state: InnerMatchingState::NoMatch, start_position: None, end_position: None }
    }

    /// Set the current state number of the automaton.
    pub fn set_current_state(&mut self, state: usize)
        ensures
            *final(self) == (MatchingState { current_state: state, ..*old(self) }),
    {
        self.current_state = state;
    }

    /// Get the current state number of the automaton.
    pub fn current_state(&self) -> (r: usize)
        ensures
            r == self.current_state,
    {
        self.current_state
    }

    /// No transition was found: a started match is reset, a recorded match becomes the longest
    /// one.
    pub fn no_transition(&mut self)
        ensures
            *final(self) == after_no_transition(*old(self)),
    {
        match self.state {
            InnerMatchingState::NoMatch => {},
            InnerMatchingState::Start => {
                *self = MatchingState::new();
            },
            InnerMatchingState::Accepting => {
                self.state = InnerMatchingState::Longest;
            },
            InnerMatchingState::Longest => {},
        }
    }

    /// A transition to a non-accepting state at position `i` was found: without a match so far
    /// the start of a match is recorded.
    pub fn transition_to_non_accepting(&mut self, i: usize)
        ensures
            *final(self) == after_non_accepting(*old(self), i),
    {
        match self.state {
            InnerMatchingState::NoMatch => {
                self.state = InnerMatchingState::Start;
                self.start_position = Some(i);
            },
            _ => {},
        }
    }

    /// A transition to an accepting state on the character `c` at position `i` was found: the
    /// match up to behind `c` is recorded, unless the longest match is known.
    pub fn transition_to_accepting(&mut self, i: usize, c: char)
        requires
            i + 4 <= usize::MAX,
        ensures
            *final(self) == after_accepting(*old(self), i, c),
    {
        let end = i + utf8_width(c);
        match self.state {
            InnerMatchingState::NoMatch => {
                *self = MatchingState {
                    current_state: 0,
                    state: InnerMatchingState::Accepting,
                    start_position: Some(i),
                    end_position: Some(end),
                };
            },
            InnerMatchingState::Start => {
                self.state = InnerMatchingState::Accepting;
                self.end_position = Some(end);
            },
            InnerMatchingState::Accepting => {
                self.end_position = Some(end);
            },
            InnerMatchingState::Longest => {},
        }
    }

    /// Returns true if no match is recorded.
    pub fn is_no_match(&self) -> (r: bool)
        ensures
            r == (self.state == InnerMatchingState::NoMatch),
    {
        self.state == InnerMatchingState::NoMatch
    }

    /// Returns true if the recorded match is the longest match.
    pub fn is_longest_match(&self) -> (r: bool)
        ensures
            r == (self.state == InnerMatchingState::Longest),
    {
        self.state == InnerMatchingState::Longest
    }

    /// Returns the last match found, if start and end are recorded.
    pub fn last_match(&self) -> (r: Option<Span>)
        ensures
            r == match (self.start_position, self.end_position) {
                (Some(start), Some(end)) => Some(Span { start, end }),
                _ => None,
            },
    {
        match (self.start_position, self.end_position) {
            (Some(start), Some(end)) => Some(Span { start, end }),
            _ => None,
        }
    }

    /// Returns the state of the matching.
    pub fn inner_state(&self) -> (r: InnerMatchingState)
        ensures
            r == self.state,
    {
        self.state
    }
}

/// The longest match, once known, is kept: no event changes a matching state in the state
/// `Longest`.
pub proof fn lemma_longest_is_final(s: MatchingState, i: usize, c: char)
    requires
        s.state == InnerMatchingState::Longest,
    ensures
        after_no_transition(s) == s,
        after_non_accepting(s, i) == s,
        after_accepting(s, i, c) == s,
{
}

/// A recorded match stays recorded: from `Accepting` or `Longest` every event leads to
/// `Accepting` or `Longest` with the start of the match kept.
pub proof fn lemma_match_kept(s: MatchingState, i: usize, c: char)
    requires
        s.state == InnerMatchingState::Accepting || s.state == InnerMatchingState::Longest,
    ensures
        after_no_transition(s).state == InnerMatchingState::Longest,
        after_non_accepting(s, i) == s,
        after_accepting(s, i, c).state == s.state,
        after_accepting(s, i, c).start_position == s.start_position,
        after_no_transition(s).start_position == s.start_position,
{
}

} // verus!
