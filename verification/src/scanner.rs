//! The scanner: compiled scanner modes and the search for matches in a haystack.
use vstd::prelude::*;
use crate::compiled_scanner_mode::mode_compiled_from;
use crate::errors::ScnrError;
use crate::find_matches::FindMatches;
use crate::scanner_mode::{modes_parse, modes_without_patterns, ScannerMode};
use crate::scanner_nfa_impl::ScannerNfaImpl;
use crate::text::byte_offset;

verus! {

/// A trait to switch between scanner modes.
///
/// This trait is used to switch between different scanner modes from a parser's perspective.
/// The parser can set the current scanner mode to switch to a different set of automata.
/// Usually, the scanner mode is changed by the scanner itself based on the transitions defined
/// in the active scanner mode.
///
/// It is discouraged to use a mix of scanner induced mode changes and parser induced mode changes.
/// This can lead to unexpected behavior and is not recommended.
pub trait ScannerModeSwitcher {
    /// Sets the current scanner mode.
    fn set_mode(&mut self, mode: usize);

    /// Returns the current scanner mode.
    fn current_mode(&self) -> usize;

    /// Returns the name of the scanner mode with the given index.
    fn mode_name(&self, index: usize) -> Option<&str>;
}

/// A Scanner.
/// It consists of one compiled automaton per scanner mode, each of which matches all patterns of
/// its mode in parallel.
///
/// Scanners support multiple scanner modes. This feature is known from Flex as *Start
/// conditions* and provides more flexibility by defining several scanners for several parts of
/// your grammar.
///
/// To create a scanner, you should use the `ScannerBuilder` to add scanner mode data.
/// At least one scanner mode must be added to the scanner. This single mode is usually named
/// `INITIAL`.
#[derive(Debug)]
pub struct Scanner {
    /// The scanner implementation.
    pub inner: ScannerNfaImpl,
}

impl Scanner {
    /// Returns an iterator over all non-overlapping matches. The iterator has a mode of its own,
    /// which starts as the first mode; the scanner's mode is not changed.
    pub fn find_iter<'h>(&self, input: &'h str) -> (r: FindMatches<'h>)
        requires
            self.inner.wf(),
            byte_offset(input@, input@.len() as int) < usize::MAX,
        ensures
            r.state().wf(),
            r.state().chars() == input@,
            r.state().cursor() == 0,
            r.state().spec_offset() == 0,
            r.state().scanner().modes() == self.inner.modes(),
            r.state().scanner().classes() == self.inner.classes(),
            r.state().scanner().spec_current_mode() == 0,
    {
        FindMatches::new(self.inner.duplicate(), input)
    }

    /// Compiles the scanner modes into a scanner; see [ScannerNfaImpl::try_from].
    pub fn try_from(scanner_modes: Vec<ScannerMode>) -> (r: Result<Self, ScnrError>)
        ensures
            r is Ok ==> modes_parse(scanner_modes@),
            modes_without_patterns(scanner_modes@) ==> r is Ok,
            r matches Ok(s) ==> {
                &&& s.inner.wf()
                &&& s.inner.spec_current_mode() == 0
                &&& s.inner.modes().len() == scanner_modes@.len()
                &&& forall|i: int| 0 <= i < scanner_modes@.len() ==> mode_compiled_from(#[trigger] s.inner.modes()[i], scanner_modes@[i])
            },
    {
        let inner = ScannerNfaImpl::try_from(scanner_modes)?;
        Ok(Scanner { inner })
    }
}

impl ScannerModeSwitcher for Scanner {
    /// Sets the current scanner mode.
    ///
    /// A parser can explicitly set the scanner mode to switch to a different set of automata.
    /// Usually, the scanner mode is changed by the scanner itself based on the transitions
    /// defined in the active scanner mode.
    fn set_mode(&mut self, mode: usize)
        ensures
            final(self).inner.spec_current_mode() == mode,
            final(self).inner.modes() == old(self).inner.modes(),
            old(self).inner.wf() ==> final(self).inner.wf(),
    {
        self.inner.set_mode(mode);
    }

    /// Returns the current scanner mode.
    fn current_mode(&self) -> (r: usize)
        ensures
            r == self.inner.spec_current_mode(),
    {
        self.inner.current_mode()
    }

    /// Returns the name of the scanner mode with the given index.
    /// If the index is out of bounds, None is returned.
    fn mode_name(&self, index: usize) -> (r: Option<&str>)
        ensures
            index < self.inner.modes().len() ==> (r matches Some(n) && n@ == self.inner.modes()[index as int].name@),
            index >= self.inner.modes().len() ==> r is None,
    {
        self.inner.mode_name(index)
    }
}

} // verus!
