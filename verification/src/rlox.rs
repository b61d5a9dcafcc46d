//! The state of a host that runs source texts through the scanner and
//! remembers whether one of them had a lexical error.

use vstd::prelude::*;
use crate::diagnostic::diagnostic_views;
use crate::grammar::{diagnostics, tokens};
use crate::scanner::{ends_with_only_end_marker, Scanned, Scanner};
use crate::token::token_views;

verus! {

/// What a host keeps between runs: whether a run since the last reset found a
/// lexical error.
pub struct Rlox {
    had_error: bool,
}

impl Rlox {
    /// Whether a run since the last reset found a lexical error.
    pub closed spec fn error_seen(&self) -> bool {
        self.had_error
    }

    /// A host that has seen no error.
    pub fn new() -> (host: Rlox)
        ensures
            !host.error_seen(),
    {
        Rlox { had_error: false }
    }

    /// Whether a run since the last reset found a lexical error. A host
    /// consults this to decide whether to go on to later stages.
    pub fn had_error(&self) -> (seen: bool)
        ensures
            seen == self.error_seen(),
    {
        self.had_error
    }

    /// Forgets the errors seen so far, as an interactive host does between two
    /// lines.
    pub fn reset(&mut self)
        ensures
            !final(self).error_seen(),
    {
        self.had_error = false;
    }

    /// Scans `source` with a scanner of its own and hands back what the scan
    /// produced, for the host to show. The host has seen an error afterwards if
    /// it had seen one before or the scan reported one.
    pub fn run(&mut self, source: std::string::String) -> (scanned: Scanned)
        ensures
            token_views(scanned.tokens@) == tokens(source@),
            diagnostic_views(scanned.diagnostics@) == diagnostics(source@),
            ends_with_only_end_marker(scanned.tokens@),
            final(self).error_seen() == (old(self).error_seen() || diagnostics(source@).len() > 0),
    {
        let scanner = Scanner::new(source);
        let scanned = scanner.scan();
        if scanned.diagnostics.len() > 0 {
            self.had_error = true;
        }
        scanned
    }

    /// Handles one line that an interactive host has read, with the blanks
    /// around it taken off. The line `exit` ends the session: nothing is
    /// scanned and the state stays as it is. Any other line is scanned like a
    /// source text, and the errors it had are forgotten again afterwards.
    pub fn run_prompt_line(&mut self, input: std::string::String) -> (scanned: Option<Scanned>)
        ensures
            input@ == "exit"@ ==> scanned is None && final(self).error_seen() == old(
                self,
            ).error_seen(),
            input@ != "exit"@ ==> scanned is Some && !final(self).error_seen() && token_views(
                scanned->0.tokens@,
            ) == tokens(input@) && diagnostic_views(scanned->0.diagnostics@) == diagnostics(
                input@,
            ) && ends_with_only_end_marker(scanned->0.tokens@),
    {
        let end_word = std::string::String::from_str("exit");
        if input == end_word {
            return None;
        }
        let scanned = self.run(input);
        self.reset();
        Some(scanned)
    }
}

} // verus!
