//! Builders for scanners: from scanner modes, or from a list of patterns for a single mode.
use vstd::prelude::*;
use crate::compiled_scanner_mode::mode_compiled_from;
use crate::errors::ScnrError;
use crate::pattern::Pattern;
use crate::scanner::Scanner;
use crate::scanner_mode::{modes_parse, modes_without_patterns, same_mode, ScannerMode};

verus! {

/// A builder for creating a scanner.
#[derive(Debug, Clone)]
pub struct ScannerBuilder {
    /// The scanner modes added so far.
    scanner_modes: Vec<ScannerMode>,
}

impl Default for ScannerBuilder {
    /// A builder without scanner modes.
    fn default() -> (r: Self)
        ensures
            r.modes().len() == 0,
    {
        Self::new()
    }
}

/// The scanner has one mode for each given mode, compiled from it (see [mode_compiled_from]):
/// its name, transitions, and the regular expressions, token types and lookahead polarities of
/// its patterns. It starts in the first mode.
pub open spec fn scanner_of(s: Scanner, modes: Seq<ScannerMode>) -> bool {
    &&& s.inner.wf()
    &&& s.inner.spec_current_mode() == 0
    &&& s.inner.modes().len() == modes.len()
    &&& forall|i: int| 0 <= i < modes.len() ==> mode_compiled_from(#[trigger] s.inner.modes()[i], modes[i])
}

impl ScannerBuilder {
    /// The scanner modes added so far.
    pub closed spec fn modes(&self) -> Seq<ScannerMode> {
        self.scanner_modes@
    }

    /// Creates a new scanner builder.
    pub fn new() -> (r: Self)
        ensures
            r.modes().len() == 0,
    {
        Self { scanner_modes: Vec::new() }
    }

    /// Adds only patterns to the scanner builder.
    /// This is useful for simple use cases where only one scanner mode is needed.
    /// The scanner mode is named `INITIAL` implicitly, and the token type of each pattern is its
    /// index. All previously added scanner modes are ignored after calling this method.
    pub fn add_patterns(self, patterns: &[&str]) -> (r: SimpleScannerBuilder)
        ensures
            r.mode().name@ == "INITIAL"@,
            r.mode().transitions@.len() == 0,
            r.mode().patterns@.len() == patterns@.len(),
            forall|i: int| 0 <= i < patterns@.len() ==> {
                &&& (#[trigger] r.mode().patterns@[i]).spec_pattern() == patterns@[i]@
                &&& r.mode().patterns@[i].spec_token_type() == i
                &&& r.mode().patterns@[i].spec_lookahead() is None
            },
    {
        SimpleScannerBuilder::new(patterns)
    }

    /// Adds a scanner mode to the scanner builder.
    pub fn add_scanner_mode(self, scanner_mode: ScannerMode) -> (r: Self)
        ensures
            r.modes() == self.modes().push(scanner_mode),
    {
        let mut me = self;
        me.scanner_modes.push(scanner_mode);
        me
    }

    /// Adds multiple scanner modes to the scanner builder.
    pub fn add_scanner_modes(self, scanner_modes: &[ScannerMode]) -> (r: Self)
        ensures
            r.modes().len() == self.modes().len() + scanner_modes@.len(),
            forall|i: int| 0 <= i < self.modes().len() ==> #[trigger] r.modes()[i] == self.modes()[i],
            forall|i: int| 0 <= i < scanner_modes@.len() ==> same_mode(#[trigger] r.modes()[self.modes().len() + i], scanner_modes@[i]),
    {
        let mut me = self;
        let mut i: usize = 0;
        while i < scanner_modes.len()
            invariant
                i <= scanner_modes@.len(),
                me.modes().len() == self.modes().len() + i,
                forall|j: int| 0 <= j < self.modes().len() ==> #[trigger] me.modes()[j] == self.modes()[j],
                forall|j: int| 0 <= j < i ==> same_mode(#[trigger] me.modes()[self.modes().len() + j], scanner_modes@[j]),
            decreases scanner_modes@.len() - i,
        {
            me.scanner_modes.push(scanner_modes[i].duplicate());
            i = i + 1;
        }
        me
    }

    /// Builds the scanner from the scanner modes added.
    pub fn build(self) -> (r: Result<Scanner, ScnrError>)
        ensures
            r matches Ok(s) ==> scanner_of(s, self.modes()),
            r is Ok ==> modes_parse(self.modes()),
            modes_without_patterns(self.modes()) ==> r is Ok,
    {
        Scanner::try_from(self.scanner_modes)
    }
}

/// A builder for a scanner with a single scanner mode named `INITIAL`, which is usually
/// sufficient for simple use cases. Transitions between scanner modes are not supported. The
/// token types returned by the scanner are the indices of the patterns in the order they were
/// added.
#[derive(Debug, Clone)]
pub struct SimpleScannerBuilder {
    /// The single scanner mode.
    scanner_mode: ScannerMode,
}

impl SimpleScannerBuilder {
    /// The single scanner mode.
    pub closed spec fn mode(&self) -> ScannerMode {
        self.scanner_mode
    }

    /// Creates a new simple scanner builder with the given patterns.
    fn new(patterns: &[&str]) -> (r: Self)
        ensures
            r.mode().name@ == "INITIAL"@,
            r.mode().transitions@.len() == 0,
            r.mode().patterns@.len() == patterns@.len(),
            forall|i: int| 0 <= i < patterns@.len() ==> {
                &&& (#[trigger] r.mode().patterns@[i]).spec_pattern() == patterns@[i]@
                &&& r.mode().patterns@[i].spec_token_type() == i
                &&& r.mode().patterns@[i].spec_lookahead() is None
            },
    {
        let mut ps: Vec<Pattern> = Vec::new();
        let mut index: usize = 0;
        while index < patterns.len()
            invariant
                index <= patterns@.len(),
                ps@.len() == index,
                forall|i: int| 0 <= i < index ==> {
                    &&& (#[trigger] ps@[i]).spec_pattern() == patterns@[i]@
                    &&& ps@[i].spec_token_type() == i
                    &&& ps@[i].spec_lookahead() is None
                },
            decreases patterns@.len() - index,
        {
            ps.push(Pattern::new(patterns[index].to_owned(), index));
            index = index + 1;
        }
        let transitions: Vec<(usize, usize)> = Vec::new();
        Self { scanner_mode: ScannerMode::new("INITIAL", ps, transitions) }
    }

    /// Builds the scanner.
    pub fn build(self) -> (r: Result<Scanner, ScnrError>)
        ensures
            r matches Ok(s) ==> scanner_of(s, seq![self.mode()]),
            r is Ok ==> modes_parse(seq![self.mode()]),
            self.mode().patterns@.len() == 0 ==> r is Ok,
    {
        let mut modes: Vec<ScannerMode> = Vec::new();
        modes.push(self.scanner_mode);
        assert(modes@ =~= seq![self.mode()]);
        Scanner::try_from(modes)
    }
}

} // verus!
