//! Reports of malformed input.
//!
//! A lexical error never ends a scan. The scanner skips what it cannot read
//! and records a [`Diagnostic`] that says what was wrong and on which line.

use vstd::prelude::*;
use vstd::string::StringExecFns;
use crate::strings::{decimal, push_decimal};

verus! {

/// What can be wrong with a piece of source text.
#[derive(Clone, Copy, Debug, PartialEq, Eq, Structural)]
pub enum LexicalError {
    /// A character that begins no token.
    UnexpectedCharacter(char),
    /// A string literal whose closing quote is missing.
    UnterminatedString,
}

/// A lexical error and the line on which it was met. Lines count from 1.
#[derive(Clone, Copy, Debug, PartialEq, Eq, Structural)]
pub struct Diagnostic {
    pub error: LexicalError,
    pub line: usize,
}

/// The mathematical value of a [`Diagnostic`].
pub ghost struct DiagnosticView {
    pub error: LexicalError,
    pub line: nat,
}

impl View for Diagnostic {
    type V = DiagnosticView;

    open spec fn view(&self) -> DiagnosticView {
        DiagnosticView { error: self.error, line: self.line as nat }
    }
}

impl DeepView for Diagnostic {
    type V = DiagnosticView;

    open spec fn deep_view(&self) -> DiagnosticView {
        self@
    }
}

impl DiagnosticView {
    /// The diagnostic in words.
    pub open spec fn message(self) -> Seq<char> {
        match self.error {
            LexicalError::UnexpectedCharacter(c) => "Unexpected character: "@.push(c)
                + ", line "@ + decimal(self.line) + "."@,
            LexicalError::UnterminatedString => "Unterminated string, line "@ + decimal(self.line)
                + "."@,
        }
    }
}

impl Diagnostic {
    /// The diagnostic in words, such as `Unterminated string, line 3.`
    pub fn message(&self) -> (text: String)
        ensures
            text@ == self@.message(),
    {
        let mut text = match self.error {
            LexicalError::UnexpectedCharacter(c) => {
                let mut text = String::from_str("Unexpected character: ");
                text.push(c);
                text.append(", line ");
                text
            },
            LexicalError::UnterminatedString => String::from_str("Unterminated string, line "),
        };
        push_decimal(&mut text, self.line);
        text.append(".");
        text
    }
}

} // verus!
