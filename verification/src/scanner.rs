//! The scanner: a cursor over a source text that hands out one token at a
//! time.

use vstd::prelude::*;
use crate::chars::{starts_identifier, CharClass};
use crate::diagnostic::{Diagnostic, DiagnosticView, LexicalError};
use crate::grammar::{
    holds, lemma_lexeme_bounds, lemma_run_end, lemma_run_end_is, lexeme_at, newlines_in,
    number_end, reported, run_end, scan_from, Outcome,
};
use crate::laws::step_is_monotonic;
use crate::strings::text_of;
use crate::token::{word_token, TokenView};
use crate::utf8::{
    byte_len, byte_offset, byte_offset_is_encoded_length, lemma_byte_offset_grows, width_of,
};

pub use crate::token::Token;

verus! {

/// Where a scanner stands in its text: the index of the next character, the
/// byte offset of that character, and the newlines counted so far.
#[derive(Clone, Copy)]
struct Cursor {
    index: usize,
    position: usize,
    newlines: usize,
}

/// A scanner over one source text.
///
/// The text is fixed when the scanner is made. The cursor only moves
/// forward, the line only grows, and diagnostics are only added.
///
/// The cursor is a byte offset into the text as UTF-8 holds it. The scanner
/// keeps the text as characters, to read the one under the cursor in one
/// step, and keeps the byte offset beside the character's index.
pub struct Scanner {
    source: Vec<char>,
    cursor: Cursor,
    diagnostics: Vec<Diagnostic>,
}

/// The mathematical value of a [`Scanner`].
pub ghost struct ScannerView {
    /// The whole source text.
    pub source: Seq<char>,
    /// The cursor: the byte offset, in the text as UTF-8 holds it, of the
    /// next character to read.
    pub position: int,
    /// The index of the next character to read: the number of characters
    /// before the cursor.
    pub index: int,
    /// The line the cursor is on, counted from 1.
    pub line: nat,
    /// The diagnostics recorded so far, oldest first.
    pub diagnostics: Seq<DiagnosticView>,
}

impl ScannerView {
    /// The cursor lies within the text, on the boundary before the
    /// character with index `index`, and no more lines were counted than
    /// characters were read.
    pub open spec fn well_formed(self) -> bool {
        &&& 0 <= self.index <= self.source.len()
        &&& self.position == byte_offset(self.source, self.index)
        &&& 0 <= self.position <= byte_len(self.source)
        &&& 1 <= self.line <= self.index + 1
    }

    /// What the next step of scanning yields.
    pub open spec fn step(self) -> Outcome {
        scan_from(self.source, self.index, self.line)
    }

    /// The scanner after its next step.
    pub open spec fn advanced(self) -> ScannerView {
        ScannerView {
            source: self.source,
            position: byte_offset(self.source, self.step().index) as int,
            index: self.step().index,
            line: self.step().line,
            diagnostics: self.diagnostics + self.step().diagnostics,
        }
    }

    /// The scanner with its cursor moved before the character with index
    /// `index`.
    pub open spec fn moved_to(self, index: int) -> ScannerView {
        ScannerView { position: byte_offset(self.source, index) as int, index, ..self }
    }

    /// The tokens that are still to come, in their order.
    pub open spec fn remaining(self) -> Seq<TokenView>
        decreases self.source.len() - self.index,
        via Self::remaining_decreases
    {
        if self.well_formed() && self.step().token is Some {
            seq![self.step().token.unwrap()] + self.advanced().remaining()
        } else {
            Seq::empty()
        }
    }

    #[via_fn]
    proof fn remaining_decreases(self) {
        if self.well_formed() {
            step_is_monotonic(self);
        }
    }

    /// The scanner once it has taken all its steps.
    pub open spec fn exhausted(self) -> ScannerView
        decreases self.source.len() - self.index,
        via Self::exhausted_decreases
    {
        if self.well_formed() && self.step().token is Some {
            self.advanced().exhausted()
        } else {
            self.advanced()
        }
    }

    #[via_fn]
    proof fn exhausted_decreases(self) {
        if self.well_formed() {
            step_is_monotonic(self);
        }
    }
}

impl View for Scanner {
    type V = ScannerView;

    closed spec fn view(&self) -> ScannerView {
        ScannerView {
            source: self.source@,
            position: self.cursor.position as int,
            index: self.cursor.index as int,
            line: (self.cursor.newlines + 1) as nat,
            diagnostics: self.diagnostics.deep_view(),
        }
    }
}

impl Scanner {
    #[verifier::type_invariant]
    spec fn sound(self) -> bool {
        &&& self.cursor.newlines <= self.cursor.index <= self.source@.len()
        &&& self.cursor.position == byte_offset(self.source@, self.cursor.index as int)
        &&& byte_len(self.source@) <= usize::MAX
    }

    /// A scanner at the start of `source`, on line 1, with nothing recorded.
    pub fn from(source: &str) -> (scanner: Scanner)
        ensures
            scanner@ == (ScannerView {
                source: source@,
                position: 0,
                index: 0,
                line: 1,
                diagnostics: Seq::empty(),
            }),
            scanner@.well_formed(),
    {
        let bytes = source.as_bytes().len();
        let mut chars: Vec<char> = Vec::with_capacity(bytes);
        for c in it: source.chars()
            invariant
                it.seq() == source@,
                chars@ == it.seq().take(it.index() as int),
        {
            chars.push(c);
            assert(chars@ =~= it.seq().take(it.index() + 1));
        }
        proof {
            assert(chars@ =~= source@);
            byte_offset_is_encoded_length(source@, 0);
        }
        let scanner = Scanner {
            source: chars,
            cursor: Cursor { index: 0, position: 0, newlines: 0 },
            diagnostics: Vec::new(),
        };
        assert(scanner.diagnostics.deep_view() =~= Seq::empty());
        scanner
    }

    /// The cursor: the byte offset of the next character to read.
    pub fn position(&self) -> (position: usize)
        ensures
            position == self@.position,
            self@.well_formed(),
    {
        proof {
            use_type_invariant(self);
            self.lemma_sound();
        }
        self.cursor.position
    }

    /// The diagnostics recorded so far, oldest first.
    pub fn diagnostics(&self) -> (diagnostics: &Vec<Diagnostic>)
        ensures
            diagnostics.deep_view() == self@.diagnostics,
            self@.well_formed(),
    {
        proof {
            use_type_invariant(self);
            self.lemma_sound();
        }
        &self.diagnostics
    }

    /// What holds of every scanner makes its value well formed.
    proof fn lemma_sound(self)
        requires
            self.sound(),
        ensures
            self@.well_formed(),
            byte_len(self@.source) <= usize::MAX,
    {
        lemma_byte_offset_grows(self.source@, self.cursor.index as int, self.source@.len() as int);
    }

    /// The character under the cursor, if the cursor is not at the end.
    pub fn next_char(&self) -> (c: Option<char>)
        ensures
            c == if self@.index < self@.source.len() {
                Some(self@.source[self@.index])
            } else {
                None
            },
            self@.well_formed(),
    {
        proof {
            use_type_invariant(self);
            self.lemma_sound();
        }
        if self.cursor.index < self.source.len() {
            Some(self.source[self.cursor.index])
        } else {
            None
        }
    }

    /// Whether the character under the cursor is `expected`. The cursor
    /// stays where it is.
    pub fn next_char_eq(&self, expected: char) -> (b: bool)
        ensures
            b == holds(self@.source, self@.index, expected),
            self@.well_formed(),
    {
        match self.next_char() {
            Some(c) => c == expected,
            None => false,
        }
    }

    /// Moves the cursor before the character with index `index`, whose byte
    /// offset is `position`.
    fn move_to(&mut self, index: usize, position: usize)
        requires
            old(self)@.index <= index <= old(self)@.source.len(),
            position == byte_offset(old(self)@.source, index as int),
        ensures
            final(self)@ == old(self)@.moved_to(index as int),
    {
        proof {
            use_type_invariant(&*self);
        }
        self.cursor = Cursor { index, position, newlines: self.cursor.newlines };
    }

    /// Steps over the character under the cursor.
    fn step_over(&mut self)
        requires
            old(self)@.index < old(self)@.source.len(),
        ensures
            final(self)@ == old(self)@.moved_to(old(self)@.index + 1),
    {
        proof {
            use_type_invariant(&*self);
            lemma_byte_offset_grows(
                self.source@,
                self.cursor.index + 1,
                self.source@.len() as int,
            );
            assert(self.source.len() <= usize::MAX);
        }
        let width = width_of(self.source[self.cursor.index]);
        self.move_to(self.cursor.index + 1, self.cursor.position + width);
    }

    /// Moves the cursor to the end of the maximal run of characters of
    /// `class` that begins under it.
    fn skip_run(&mut self, class: CharClass)
        ensures
            final(self)@ == old(self)@.moved_to(
                run_end(old(self)@.source, old(self)@.index, class),
            ),
            old(self)@.index <= final(self)@.index <= old(self)@.source.len(),
    {
        proof {
            use_type_invariant(&*self);
        }
        let start = self.cursor.index;
        let mut end: usize = start;
        let mut position: usize = self.cursor.position;
        while end < self.source.len() && class.contains(self.source[end])
            invariant
                self.source == old(self).source,
                start <= end <= self.source@.len(),
                position == byte_offset(self.source@, end as int),
                byte_len(self.source@) <= usize::MAX,
                forall|k: int| start <= k < end ==> class.matches(#[trigger] self.source@[k]),
            decreases self.source@.len() - end,
        {
            proof {
                lemma_byte_offset_grows(self.source@, end + 1, self.source@.len() as int);
            }
            position += width_of(self.source[end]);
            end += 1;
        }
        proof {
            lemma_run_end_is(self.source@, start as int, class, end as int);
        }
        self.move_to(end, position);
    }

    /// Skips the whitespace under the cursor and counts its newlines: the
    /// line grows by one for each newline skipped, and by nothing else.
    pub fn skip_whitespace(&mut self)
        ensures
            final(self)@ == (ScannerView {
                line: old(self)@.line + newlines_in(
                    old(self)@.source,
                    old(self)@.index,
                    final(self)@.index,
                ),
                ..old(self)@.moved_to(
                    run_end(old(self)@.source, old(self)@.index, CharClass::Space),
                )
            }),
            old(self)@.index <= final(self)@.index <= old(self)@.source.len(),
            final(self)@.well_formed(),
    {
        proof {
            use_type_invariant(&*self);
        }
        let start = self.cursor.index;
        let mut end: usize = start;
        let mut position: usize = self.cursor.position;
        let mut newlines: usize = self.cursor.newlines;
        while end < self.source.len()
            invariant
                self.source == old(self).source,
                start <= end <= self.source@.len(),
                position == byte_offset(self.source@, end as int),
                byte_len(self.source@) <= usize::MAX,
                forall|k: int|
                    start <= k < end ==> CharClass::Space.matches(#[trigger] self.source@[k]),
                newlines == old(self).cursor.newlines + newlines_in(
                    self.source@,
                    start as int,
                    end as int,
                ),
                newlines <= old(self).cursor.newlines + (end - start),
                old(self).cursor.newlines <= start,
            ensures
                end < self.source@.len() ==> !CharClass::Space.matches(self.source@[end as int]),
            decreases self.source@.len() - end,
        {
            let c = self.source[end];
            if c == '\n' {
                newlines += 1;
            } else if !c.is_whitespace() {
                break;
            }
            proof {
                lemma_byte_offset_grows(self.source@, end + 1, self.source@.len() as int);
            }
            position += width_of(c);
            end += 1;
        }
        proof {
            lemma_run_end_is(self.source@, start as int, CharClass::Space, end as int);
        }
        self.cursor = Cursor { index: end, position, newlines };
        proof {
            use_type_invariant(&*self);
            self.lemma_sound();
        }
    }

    /// Skips the rest of the line under the cursor, up to its newline, which
    /// is left where it is.
    pub fn skip_comment(&mut self)
        ensures
            final(self)@ == old(self)@.moved_to(
                run_end(old(self)@.source, old(self)@.index, CharClass::CommentText),
            ),
            old(self)@.index <= final(self)@.index <= old(self)@.source.len(),
            final(self)@.well_formed(),
    {
        self.skip_run(CharClass::CommentText);
        proof {
            use_type_invariant(&*self);
            self.lemma_sound();
        }
    }

    /// Reads the number literal under the cursor and returns its text:
    /// digits, and, if a decimal point follows them, that point and the
    /// digits behind it.
    pub fn scan_number(&mut self) -> (lexeme: String)
        ensures
            final(self)@ == old(self)@.moved_to(number_end(old(self)@.source, old(self)@.index)),
            lexeme@ == old(self)@.source.subrange(old(self)@.index, final(self)@.index),
            old(self)@.index <= final(self)@.index <= old(self)@.source.len(),
            final(self)@.well_formed(),
    {
        let start = self.cursor.index;
        self.skip_run(CharClass::Digit);
        if self.next_char_eq('.') {
            self.step_over();
            self.skip_run(CharClass::Digit);
        }
        proof {
            use_type_invariant(&*self);
            self.lemma_sound();
        }
        text_of(&self.source, start, self.cursor.index)
    }

    /// Reads the string literal whose opening quote is under the cursor.
    /// Returns the text between the quotes, or, where the closing quote is
    /// missing, the diagnostic for it; the cursor then rests at the end of
    /// the input.
    pub fn scan_string(&mut self) -> (result: Result<String, Diagnostic>)
        requires
            holds(old(self)@.source, old(self)@.index, '"'),
        ensures
            ({
                let s = old(self)@.source;
                let open = old(self)@.index;
                let close = run_end(s, open + 1, CharClass::StringText);
                &&& open < close <= s.len()
                &&& match result {
                    Ok(lexeme) => {
                        &&& close < s.len()
                        &&& lexeme@ == s.subrange(open + 1, close)
                        &&& final(self)@ == old(self)@.moved_to(close + 1)
                    },
                    Err(diagnostic) => {
                        &&& close == s.len()
                        &&& diagnostic@ == DiagnosticView {
                            error: LexicalError::UnterminatedString,
                            line: old(self)@.line,
                        }
                        &&& final(self)@ == old(self)@.moved_to(close)
                    },
                }
            }),
            final(self)@.well_formed(),
    {
        proof {
            use_type_invariant(&*self);
            assert(self.source.len() <= usize::MAX);
        }
        let line = self.cursor.newlines + 1;
        self.step_over();
        let start = self.cursor.index;
        self.skip_run(CharClass::StringText);
        proof {
            use_type_invariant(&*self);
            lemma_run_end(self.source@, start as int, CharClass::StringText);
        }
        let result = if self.next_char_eq('"') {
            let lexeme = text_of(&self.source, start, self.cursor.index);
            self.step_over();
            Ok(lexeme)
        } else {
            Err(Diagnostic { error: LexicalError::UnterminatedString, line })
        };
        proof {
            use_type_invariant(&*self);
            self.lemma_sound();
        }
        result
    }

    /// Reads the identifier or keyword under the cursor and returns its text.
    pub fn scan_identifier(&mut self) -> (lexeme: String)
        ensures
            final(self)@ == old(self)@.moved_to(
                run_end(old(self)@.source, old(self)@.index, CharClass::IdentifierPart),
            ),
            lexeme@ == old(self)@.source.subrange(old(self)@.index, final(self)@.index),
            old(self)@.index <= final(self)@.index <= old(self)@.source.len(),
            final(self)@.well_formed(),
    {
        let start = self.cursor.index;
        self.skip_run(CharClass::IdentifierPart);
        proof {
            use_type_invariant(&*self);
            self.lemma_sound();
        }
        text_of(&self.source, start, self.cursor.index)
    }

    /// Records `diagnostic` behind those recorded before.
    fn report(&mut self, diagnostic: Diagnostic)
        ensures
            final(self)@ == (ScannerView {
                diagnostics: old(self)@.diagnostics.push(diagnostic@),
                ..old(self)@
            }),
    {
        proof {
            use_type_invariant(&*self);
        }
        let mut diagnostics = Vec::new();
        std::mem::swap(&mut diagnostics, &mut self.diagnostics);
        diagnostics.push(diagnostic);
        self.diagnostics = diagnostics;
        assert(self.diagnostics.deep_view() =~= old(self).diagnostics.deep_view().push(
            diagnostic@,
        ));
    }

    /// Steps over the character under the cursor, which forms `token` by
    /// itself.
    fn take(&mut self, token: Token) -> (taken: Option<Token>)
        requires
            old(self)@.index < old(self)@.source.len(),
        ensures
            taken == Some(token),
            final(self)@ == old(self)@.moved_to(old(self)@.index + 1),
    {
        self.step_over();
        Some(token)
    }

    /// Steps over the operator under the cursor, and over an equal sign
    /// behind it if there is one. The operator forms `single` by itself and
    /// `doubled` together with the equal sign.
    fn take_operator(&mut self, single: Token, doubled: Token) -> (taken: Option<Token>)
        requires
            old(self)@.index < old(self)@.source.len(),
        ensures
            holds(old(self)@.source, old(self)@.index + 1, '=') ==> {
                &&& taken == Some(doubled)
                &&& final(self)@ == old(self)@.moved_to(old(self)@.index + 2)
            },
            !holds(old(self)@.source, old(self)@.index + 1, '=') ==> {
                &&& taken == Some(single)
                &&& final(self)@ == old(self)@.moved_to(old(self)@.index + 1)
            },
    {
        self.step_over();
        if self.next_char_eq('=') {
            self.step_over();
            Some(doubled)
        } else {
            Some(single)
        }
    }

    /// Reads the lexeme under the cursor, which is not whitespace. Returns
    /// the token it forms, if it forms one, and records what is wrong with
    /// it, if anything is.
    fn scan_lexeme(&mut self) -> (token: Option<Token>)
        requires
            old(self)@.index < old(self)@.source.len(),
        ensures
            ({
                let lexeme = lexeme_at(old(self)@.source, old(self)@.index);
                &&& token.deep_view() == lexeme.token
                &&& final(self)@ == (ScannerView {
                    diagnostics: old(self)@.diagnostics + reported(lexeme, old(self)@.line),
                    ..old(self)@.moved_to(lexeme.end)
                })
            }),
    {
        proof {
            use_type_invariant(&*self);
            assert(self.source.len() <= usize::MAX);
        }
        let c = self.source[self.cursor.index];
        let token = match c {
            '(' => self.take(Token::LeftParen),
            ')' => self.take(Token::RightParen),
            '{' => self.take(Token::LeftBrace),
            '}' => self.take(Token::RightBrace),
            ',' => self.take(Token::Comma),
            '.' => self.take(Token::Dot),
            ';' => self.take(Token::Semicolon),
            '+' => self.take(Token::Plus),
            '-' => self.take(Token::Minus),
            '*' => self.take(Token::Star),
            '!' => self.take_operator(Token::Bang, Token::BangEqual),
            '=' => self.take_operator(Token::Equal, Token::EqualEqual),
            '<' => self.take_operator(Token::Less, Token::LessEqual),
            '>' => self.take_operator(Token::Greater, Token::GreaterEqual),
            '"' => match self.scan_string() {
                Ok(lexeme) => Some(Token::String(lexeme)),
                Err(diagnostic) => {
                    self.report(diagnostic);
                    None
                },
            },
            '/' => {
                self.step_over();
                if self.next_char_eq('/') {
                    self.step_over();
                    self.skip_comment();
                    None
                } else {
                    Some(Token::Slash)
                }
            },
            _ => {
                if CharClass::Digit.contains(c) {
                    let lexeme = self.scan_number();
                    Some(Token::Number(lexeme))
                } else if starts_identifier(c) {
                    let lexeme = self.scan_identifier();
                    Some(word_token(lexeme))
                } else {
                    let line = self.cursor.newlines + 1;
                    self.report(
                        Diagnostic { error: LexicalError::UnexpectedCharacter(c), line },
                    );
                    self.step_over();
                    None
                }
            },
        };
        proof {
            let lexeme = lexeme_at(old(self)@.source, old(self)@.index);
            assert(self@.diagnostics =~= old(self)@.diagnostics + reported(
                lexeme,
                old(self)@.line,
            ));
        }
        token
    }

    /// Takes one step: skips whitespace, comments and malformed input, and
    /// returns the next token, or `None` at the end of the input.
    pub fn scan(&mut self) -> (token: Option<Token>)
        ensures
            token.deep_view() == old(self)@.step().token,
            final(self)@ == old(self)@.advanced(),
            old(self)@.well_formed(),
            final(self)@.well_formed(),
    {
        let ghost mut passed: Seq<DiagnosticView> = Seq::empty();
        proof {
            use_type_invariant(&*self);
            self.lemma_sound();
            assert(old(self)@.step().after(passed) =~= old(self)@.step());
            assert(old(self)@.diagnostics + passed =~= old(self)@.diagnostics);
        }
        loop
            invariant
                old(self)@.well_formed(),
                self@.source == old(self)@.source,
                0 <= self@.index <= self@.source.len(),
                old(self)@.step() == self@.step().after(passed),
                self@.diagnostics == old(self)@.diagnostics + passed,
            decreases self@.source.len() - self@.index,
        {
            let ghost before = self@;
            self.skip_whitespace();
            if self.cursor.index == self.source.len() {
                proof {
                    assert(self@ =~= old(self)@.advanced());
                }
                return None;
            }
            let ghost start = self@.index;
            let ghost line = self@.line;
            let ghost lexeme = lexeme_at(self@.source, start);
            let token = self.scan_lexeme();
            proof {
                lemma_lexeme_bounds(before.source, start);
            }
            if token.is_some() {
                proof {
                    use_type_invariant(&*self);
                    self.lemma_sound();
                    assert(self@ =~= old(self)@.advanced());
                }
                return token;
            }
            proof {
                let rest = self@.step();
                let here = reported(lexeme, line);
                assert(before.step() == rest.after(here));
                assert(passed + (here + rest.diagnostics) =~= (passed + here) + rest.diagnostics);
                assert(old(self)@.diagnostics + passed + here =~= old(self)@.diagnostics + (passed
                    + here));
                passed = passed + here;
            }
        }
    }

    /// Produces the next token, or `None` once the input is exhausted.
    ///
    /// Whitespace and comments are passed over. So is malformed input, for
    /// which a diagnostic is recorded.
    pub fn next(&mut self) -> (token: Option<Token>)
        ensures
            token.deep_view() == old(self)@.step().token,
            final(self)@ == old(self)@.advanced(),
            old(self)@.well_formed(),
            final(self)@.well_formed(),
    {
        self.scan()
    }

    /// Produces all the tokens that are still to come, and leaves the
    /// scanner exhausted.
    pub fn tokens(&mut self) -> (tokens: Vec<Token>)
        ensures
            tokens.deep_view() == old(self)@.remaining(),
            final(self)@ == old(self)@.exhausted(),
            final(self)@.well_formed(),
    {
        let mut tokens: Vec<Token> = Vec::new();
        proof {
            use_type_invariant(&*self);
            self.lemma_sound();
            assert(tokens.deep_view() + self@.remaining() =~= self@.remaining());
        }
        loop
            invariant
                self@.well_formed(),
                old(self)@.remaining() == tokens.deep_view() + self@.remaining(),
                old(self)@.exhausted() == self@.exhausted(),
            decreases self@.source.len() - self@.index,
        {
            let ghost before = self@;
            let ghost earlier = tokens.deep_view();
            proof {
                step_is_monotonic(before);
            }
            match self.next() {
                Some(token) => {
                    tokens.push(token);
                    proof {
                        assert(tokens.deep_view() =~= earlier.push(token@));
                        assert(earlier + (seq![token@] + self@.remaining()) =~= earlier.push(
                            token@,
                        ) + self@.remaining());
                    }
                },
                None => {
                    return tokens;
                },
            }
        }
    }
}

} // verus!
