//! Lexical analysis for a small scripting language of the Lox family.
//!
//! A [`Scanner`] owns one source text and hands out its [`Token`]s one at a
//! time. Its cursor is a byte offset into the text as UTF-8 holds it.
//! Malformed input never stops a scan: it is skipped, and a [`Diagnostic`] is
//! recorded for it.
//!
//! What the scanner does is stated over a mathematical model of the language's
//! lexical grammar (module `grammar`), and the general facts about that model
//! are proved in module `laws`.

pub mod chars;
pub mod diagnostic;
pub mod grammar;
pub mod laws;
pub mod scanner;
pub mod strings;
pub mod token;
pub mod utf8;

pub use chars::CharClass;
pub use diagnostic::{Diagnostic, LexicalError};
pub use scanner::Scanner;
pub use token::Token;
