//! Lexical errors and the diagnostics that report them.

use vstd::prelude::*;

verus! {

/// What can be wrong with a piece of source text. Neither error stops a scan.
#[derive(Clone, Copy, Debug, PartialEq, Eq, Structural)]
pub enum LexicalError {
    /// A character that starts no token and is no separator.
    UnexpectedCharacter(char),
    /// A string literal whose closing quote is missing.
    UnterminatedString,
}

/// A lexical error together with the line it is reported at.
#[derive(Clone, Copy, Debug, PartialEq, Eq, Structural)]
pub struct Diagnostic {
    /// The 1-based line the scanner was on when it found the error.
    pub line: usize,
    /// The error found.
    pub error: LexicalError,
}

/// A diagnostic as the model states it, with an unbounded line number.
pub struct DiagnosticView {
    pub line: nat,
    pub error: LexicalError,
}

impl View for Diagnostic {
    type V = DiagnosticView;

    open spec fn view(&self) -> DiagnosticView {
        DiagnosticView { line: self.line as nat, error: self.error }
    }
}

impl LexicalError {
    /// The text of the message that describes this error.
    pub open spec fn message_text(self) -> Seq<char> {
        match self {
            LexicalError::UnexpectedCharacter(c) => "Invalid character '"@ + seq![c] + "'"@,
            LexicalError::UnterminatedString => "Unterminated string"@,
        }
    }

    /// A human-readable message that describes this error; for an unexpected
    /// character it shows the character.
    pub fn message(&self) -> (message: std::string::String)
        ensures
            message@ == self.message_text(),
    {
        match self {
            LexicalError::UnexpectedCharacter(c) => {
                let mut message = std::string::String::from_str("Invalid character '");
                message.push(*c);
                message.append("'");
                message
            },
            LexicalError::UnterminatedString => std::string::String::from_str("Unterminated string"),
        }
    }
}

/// The views of a sequence of diagnostics, in order.
pub open spec fn diagnostic_views(diagnostics: Seq<Diagnostic>) -> Seq<DiagnosticView> {
    Seq::new(diagnostics.len(), |i: int| diagnostics[i]@)
}

} // verus!
