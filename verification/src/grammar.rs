//! The lexical grammar, stated over sequences of characters.
//!
//! Nothing here runs. These functions say which lexeme stands at a place in a
//! source text and what one step of scanning yields; the scanner's contracts
//! are written in their terms.

use vstd::prelude::*;
use crate::chars::{is_digit, is_identifier_start, CharClass};
use crate::diagnostic::{DiagnosticView, LexicalError};
use crate::token::{word, TokenView};

verus! {

/// Where the maximal run of characters of `class` that begins at `start`
/// comes to its end.
pub open spec fn run_end(s: Seq<char>, start: int, class: CharClass) -> int
    decreases s.len() - start,
{
    if 0 <= start < s.len() && class.matches(s[start]) {
        run_end(s, start + 1, class)
    } else {
        start
    }
}

/// How many newline characters lie in `s[from..to]`.
pub open spec fn newlines_in(s: Seq<char>, from: int, to: int) -> nat
    decreases to - from,
{
    if from < to {
        newlines_in(s, from, to - 1) + if s[to - 1] == '\n' {
            1nat
        } else {
            0nat
        }
    } else {
        0
    }
}

/// Where the number literal that begins at `start` ends: after its digits,
/// and, if a decimal point follows them, after that point and the digits
/// behind it. A second point is not part of the literal.
pub open spec fn number_end(s: Seq<char>, start: int) -> int {
    let whole = run_end(s, start, CharClass::Digit);
    if 0 <= whole < s.len() && s[whole] == '.' {
        run_end(s, whole + 1, CharClass::Digit)
    } else {
        whole
    }
}

/// Whether the character `c` stands at index `i` of `s`.
pub open spec fn holds(s: Seq<char>, i: int, c: char) -> bool {
    0 <= i < s.len() && s[i] == c
}

/// The token that the punctuation character `c` forms by itself.
pub open spec fn punctuation(c: char) -> Option<TokenView> {
    if c == '(' {
        Some(TokenView::LeftParen)
    } else if c == ')' {
        Some(TokenView::RightParen)
    } else if c == '{' {
        Some(TokenView::LeftBrace)
    } else if c == '}' {
        Some(TokenView::RightBrace)
    } else if c == ',' {
        Some(TokenView::Comma)
    } else if c == '.' {
        Some(TokenView::Dot)
    } else if c == ';' {
        Some(TokenView::Semicolon)
    } else if c == '+' {
        Some(TokenView::Plus)
    } else if c == '-' {
        Some(TokenView::Minus)
    } else if c == '*' {
        Some(TokenView::Star)
    } else {
        None
    }
}

/// The token that the operator character `c` forms, by itself or, where
/// `doubled`, together with an equal sign behind it.
pub open spec fn operator(c: char, doubled: bool) -> Option<TokenView> {
    if c == '!' {
        Some(if doubled { TokenView::BangEqual } else { TokenView::Bang })
    } else if c == '=' {
        Some(if doubled { TokenView::EqualEqual } else { TokenView::Equal })
    } else if c == '<' {
        Some(if doubled { TokenView::LessEqual } else { TokenView::Less })
    } else if c == '>' {
        Some(if doubled { TokenView::GreaterEqual } else { TokenView::Greater })
    } else {
        None
    }
}

/// One lexeme of a source text: where it ends, the token it forms, if it
/// forms one, and what is wrong with it, if anything is. A comment forms no
/// token and is not wrong.
pub ghost struct Lexeme {
    pub end: int,
    pub token: Option<TokenView>,
    pub error: Option<LexicalError>,
}

/// The lexeme that begins at index `i` of `s`, where `s[i]` is not
/// whitespace.
pub open spec fn lexeme_at(s: Seq<char>, i: int) -> Lexeme
    recommends
        0 <= i < s.len(),
{
    let c = s[i];
    if punctuation(c) is Some {
        Lexeme { end: i + 1, token: punctuation(c), error: None }
    } else if operator(c, false) is Some {
        if holds(s, i + 1, '=') {
            Lexeme { end: i + 2, token: operator(c, true), error: None }
        } else {
            Lexeme { end: i + 1, token: operator(c, false), error: None }
        }
    } else if is_digit(c) {
        let end = number_end(s, i);
        Lexeme { end, token: Some(TokenView::Number(s.subrange(i, end))), error: None }
    } else if c == '"' {
        let close = run_end(s, i + 1, CharClass::StringText);
        if close < s.len() {
            Lexeme {
                end: close + 1,
                token: Some(TokenView::String(s.subrange(i + 1, close))),
                error: None,
            }
        } else {
            Lexeme { end: close, token: None, error: Some(LexicalError::UnterminatedString) }
        }
    } else if c == '/' {
        if holds(s, i + 1, '/') {
            Lexeme { end: run_end(s, i + 2, CharClass::CommentText), token: None, error: None }
        } else {
            Lexeme { end: i + 1, token: Some(TokenView::Slash), error: None }
        }
    } else if is_identifier_start(c) {
        let end = run_end(s, i, CharClass::IdentifierPart);
        Lexeme { end, token: Some(word(s.subrange(i, end))), error: None }
    } else {
        Lexeme { end: i + 1, token: None, error: Some(LexicalError::UnexpectedCharacter(c)) }
    }
}

/// What one step of scanning yields: the token, if the input held one more,
/// the index of the character and the line at which the step came to rest,
/// and the diagnostics it recorded on the way.
pub ghost struct Outcome {
    pub token: Option<TokenView>,
    pub index: int,
    pub line: nat,
    pub diagnostics: Seq<DiagnosticView>,
}

impl Outcome {
    /// The same outcome, reached after `earlier` had been recorded.
    pub open spec fn after(self, earlier: Seq<DiagnosticView>) -> Outcome {
        Outcome { diagnostics: earlier + self.diagnostics, ..self }
    }
}

/// What a lexeme on line `line` makes the scanner record.
pub open spec fn reported(lexeme: Lexeme, line: nat) -> Seq<DiagnosticView> {
    match lexeme.error {
        Some(error) => seq![DiagnosticView { error, line }],
        None => Seq::empty(),
    }
}

/// One step of scanning `s` from the character with index `index`, on line
/// `line`.
///
/// The step skips whitespace, counting the newlines in it. At the end of the
/// input it yields no token. Otherwise it reads the lexeme that stands
/// there: a token ends the step, while a comment or a malformed lexeme is
/// passed over, the latter with a diagnostic, and the step goes on behind it.
pub open spec fn scan_from(s: Seq<char>, index: int, line: nat) -> Outcome
    decreases s.len() - index,
    via scan_from_decreases
{
    let start = run_end(s, index, CharClass::Space);
    let line = line + newlines_in(s, index, start);
    if 0 <= index <= start < s.len() {
        let lexeme = lexeme_at(s, start);
        if lexeme.token is Some {
            Outcome {
                token: lexeme.token,
                index: lexeme.end,
                line,
                diagnostics: reported(lexeme, line),
            }
        } else {
            scan_from(s, lexeme.end, line).after(reported(lexeme, line))
        }
    } else {
        Outcome { token: None, index: start, line, diagnostics: Seq::empty() }
    }
}

#[via_fn]
proof fn scan_from_decreases(s: Seq<char>, index: int, line: nat) {
    let start = run_end(s, index, CharClass::Space);
    if 0 <= index <= start < s.len() {
        lemma_lexeme_bounds(s, start);
    }
}

/// A maximal run lies within the text, holds only characters of its class,
/// and ends at the end of the text or before a character of another class.
pub proof fn lemma_run_end(s: Seq<char>, start: int, class: CharClass)
    requires
        0 <= start <= s.len(),
    ensures
        start <= run_end(s, start, class) <= s.len(),
        forall|k: int| start <= k < run_end(s, start, class) ==> class.matches(#[trigger] s[k]),
        run_end(s, start, class) < s.len() ==> !class.matches(s[run_end(s, start, class)]),
    decreases s.len() - start,
{
    if start < s.len() && class.matches(s[start]) {
        lemma_run_end(s, start + 1, class);
    }
}

/// A run that holds only characters of its class, and ends at the end of the
/// text or before a character of another class, is the maximal one.
pub proof fn lemma_run_end_is(s: Seq<char>, start: int, class: CharClass, end: int)
    requires
        0 <= start <= end <= s.len(),
        forall|k: int| start <= k < end ==> class.matches(#[trigger] s[k]),
        end < s.len() ==> !class.matches(s[end]),
    ensures
        run_end(s, start, class) == end,
    decreases end - start,
{
    if start < end {
        assert(class.matches(s[start]));
        lemma_run_end_is(s, start + 1, class, end);
    }
}

/// A number literal lies within the text and is at least as long as its
/// leading digits.
pub proof fn lemma_number_end(s: Seq<char>, start: int)
    requires
        0 <= start <= s.len(),
    ensures
        run_end(s, start, CharClass::Digit) <= number_end(s, start) <= s.len(),
{
    lemma_run_end(s, start, CharClass::Digit);
    let whole = run_end(s, start, CharClass::Digit);
    if whole < s.len() {
        lemma_run_end(s, whole + 1, CharClass::Digit);
    }
}

/// Every lexeme holds at least one character and lies within the text.
pub proof fn lemma_lexeme_bounds(s: Seq<char>, i: int)
    requires
        0 <= i < s.len(),
    ensures
        i < lexeme_at(s, i).end <= s.len(),
{
    let c = s[i];
    if punctuation(c) is Some {
    } else if operator(c, false) is Some {
    } else if is_digit(c) {
        lemma_number_end(s, i);
        lemma_run_end(s, i + 1, CharClass::Digit);
    } else if c == '"' {
        lemma_run_end(s, i + 1, CharClass::StringText);
    } else if c == '/' {
        if holds(s, i + 1, '/') {
            lemma_run_end(s, i + 2, CharClass::CommentText);
        }
    } else if is_identifier_start(c) {
        lemma_run_end(s, i + 1, CharClass::IdentifierPart);
    } else {
    }
}

/// A stretch of text holds no more newlines than characters.
pub proof fn lemma_newlines_in_bound(s: Seq<char>, from: int, to: int)
    requires
        from <= to,
    ensures
        newlines_in(s, from, to) <= to - from,
    decreases to - from,
{
    if from < to {
        lemma_newlines_in_bound(s, from, to - 1);
    }
}

/// The newlines of two adjoining stretches of text add up.
pub proof fn lemma_newlines_in_split(s: Seq<char>, from: int, mid: int, to: int)
    requires
        from <= mid <= to,
    ensures
        newlines_in(s, from, to) == newlines_in(s, from, mid) + newlines_in(s, mid, to),
    decreases to - mid,
{
    if mid < to {
        lemma_newlines_in_split(s, from, mid, to - 1);
    }
}

} // verus!
