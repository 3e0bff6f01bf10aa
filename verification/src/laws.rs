//! General facts about scanning, each proved from the grammar's definition.

use vstd::prelude::*;
use crate::chars::{is_digit, is_identifier_part, is_identifier_start, is_white_space, CharClass};
use crate::diagnostic::{DiagnosticView, LexicalError};
use crate::grammar::{
    holds, lemma_lexeme_bounds, lemma_newlines_in_bound, lemma_newlines_in_split, lemma_run_end,
    lemma_run_end_is, lexeme_at, newlines_in, number_end, operator, punctuation, run_end,
    scan_from, Outcome,
};
use crate::scanner::ScannerView;
use crate::token::{keyword, word, TokenView};
use crate::utf8::{byte_len, byte_offset, lemma_byte_offset_ascii, lemma_byte_offset_grows};

verus! {

/// A step never moves the cursor back or out of the text, and never lowers
/// the line; it counts no more newlines than lie in the text it passed. A
/// step that yields a token has read at least one character. A step that
/// yields none has come to the end of the text.
pub proof fn step_bounds(s: Seq<char>, index: int, line: nat)
    requires
        0 <= index <= s.len(),
    ensures
        index <= scan_from(s, index, line).index <= s.len(),
        line <= scan_from(s, index, line).line <= line + newlines_in(
            s,
            index,
            scan_from(s, index, line).index,
        ),
        scan_from(s, index, line).token is Some ==> index < scan_from(
            s,
            index,
            line,
        ).index,
        scan_from(s, index, line).token is None ==> scan_from(s, index, line).index
            == s.len(),
    decreases s.len() - index,
{
    lemma_run_end(s, index, CharClass::Space);
    let start = run_end(s, index, CharClass::Space);
    let here = line + newlines_in(s, index, start);
    if start < s.len() {
        let lexeme = lexeme_at(s, start);
        lemma_lexeme_bounds(s, start);
        lemma_newlines_in_split(s, index, start, lexeme.end);
        if lexeme.token is None {
            step_bounds(s, lexeme.end, here);
            let end = scan_from(s, lexeme.end, here).index;
            lemma_newlines_in_split(s, index, lexeme.end, end);
        }
    }
}

/// The state of a scanner stays well formed from step to step: its text is
/// never changed, its cursor and its line never go back, and its diagnostics
/// are only added to. The cursor stays a byte offset within the text. A step
/// that yields a token moves the cursor forward, and one that yields none
/// leaves it at the end of the text.
pub proof fn step_is_monotonic(before: ScannerView)
    requires
        before.well_formed(),
    ensures
        before.advanced().well_formed(),
        before.advanced().source == before.source,
        before.index <= before.advanced().index,
        before.position <= before.advanced().position <= byte_len(before.source),
        before.line <= before.advanced().line,
        before.diagnostics.is_prefix_of(before.advanced().diagnostics),
        before.step().token is Some ==> before.index < before.advanced().index
            && before.position < before.advanced().position,
        before.step().token is None ==> before.advanced().index == before.source.len()
            && before.advanced().position == byte_len(before.source),
{
    let s = before.source;
    let after = before.advanced();
    step_bounds(s, before.index, before.line);
    lemma_newlines_in_bound(s, before.index, after.index);
    lemma_byte_offset_grows(s, before.index, after.index);
    lemma_byte_offset_grows(s, after.index, s.len() as int);
}

/// Exhaustion is final. Once a step has yielded no token, every further step
/// yields none either, and changes nothing: no token comes back, and no
/// diagnostic is recorded twice.
pub proof fn exhaustion_is_final(before: ScannerView)
    requires
        before.well_formed(),
        before.step().token is None,
    ensures
        before.advanced().step().token is None,
        before.advanced().advanced() == before.advanced(),
{
    step_bounds(before.source, before.index, before.line);
    let after = before.advanced();
    assert(after.advanced() =~= after);
}

/// Scanning is finite. A scanner yields no more tokens than it has
/// characters left. Once it has taken all its steps it stands at the end of
/// its text, where no token is left and a further step changes nothing.
pub proof fn scan_is_finite(before: ScannerView)
    requires
        before.well_formed(),
    ensures
        before.remaining().len() <= before.source.len() - before.index,
        before.exhausted().well_formed(),
        before.exhausted().source == before.source,
        before.exhausted().index == before.source.len(),
        before.exhausted().position == byte_len(before.source),
        before.exhausted().remaining() == Seq::<TokenView>::empty(),
        before.exhausted().advanced() == before.exhausted(),
    decreases before.source.len() - before.index,
{
    step_is_monotonic(before);
    if before.step().token is Some {
        scan_is_finite(before.advanced());
    } else {
        exhaustion_is_final(before);
    }
}

/// A remainder that is empty or all whitespace yields no token and no
/// diagnostic; its newlines are counted.
pub proof fn blank_remainder_is_exhausted(s: Seq<char>, index: int, line: nat)
    requires
        0 <= index <= s.len(),
        forall|k: int| index <= k < s.len() ==> is_white_space(#[trigger] s[k]),
    ensures
        scan_from(s, index, line) == (Outcome {
            token: None,
            index: s.len() as int,
            line: line + newlines_in(s, index, s.len() as int),
            diagnostics: Seq::empty(),
        }),
{
    lemma_run_end_is(s, index, CharClass::Space, s.len() as int);
}

/// Lines are counted in whitespace. A step first skips the whitespace under
/// the cursor, and the line on which it then stands is the line it began on
/// plus the newlines in that whitespace. An error in the lexeme it finds
/// there is reported with that line, and if the step ends with that lexeme,
/// or for want of one, that is the line it ends on.
pub proof fn lines_count_skipped_newlines(s: Seq<char>, index: int, line: nat)
    requires
        0 <= index <= s.len(),
    ensures
        ({
            let start = run_end(s, index, CharClass::Space);
            let here = line + newlines_in(s, index, start);
            let outcome = scan_from(s, index, line);
            &&& index <= start <= s.len()
            &&& forall|k: int| index <= k < start ==> is_white_space(#[trigger] s[k])
            &&& start < s.len() ==> !is_white_space(s[start])
            &&& here <= outcome.line
            &&& start < s.len() ==> (lexeme_at(s, start).error matches Some(error)
                ==> outcome.diagnostics.len() > 0 && outcome.diagnostics[0] == (DiagnosticView {
                error,
                line: here,
            }))
            &&& (start == s.len() || lexeme_at(s, start).token is Some) ==> outcome.line == here
        }),
{
    lemma_run_end(s, index, CharClass::Space);
    let start = run_end(s, index, CharClass::Space);
    let here = line + newlines_in(s, index, start);
    if start < s.len() {
        let lexeme = lexeme_at(s, start);
        lemma_lexeme_bounds(s, start);
        if lexeme.token is None {
            step_bounds(s, lexeme.end, here);
        }
    }
}

/// An operator takes the equal sign behind it and nothing else: where no
/// equal sign follows, the lexeme is the operator's one character, and the
/// character behind it is left for the next lexeme. The cursor moves by one
/// byte for each of the lexeme's characters.
pub proof fn operator_takes_only_equal_sign(s: Seq<char>, i: int)
    requires
        0 <= i < s.len(),
        operator(s[i], false) is Some,
    ensures
        lexeme_at(s, i).token == operator(s[i], holds(s, i + 1, '=')),
        lexeme_at(s, i).end == if holds(s, i + 1, '=') {
            i + 2
        } else {
            i + 1
        },
        lexeme_at(s, i).error is None,
        byte_offset(s, lexeme_at(s, i).end) == byte_offset(s, i) + (lexeme_at(s, i).end - i),
{
    lemma_byte_offset_ascii(s, i, lexeme_at(s, i).end);
}

/// A comment yields nothing: a step that meets two slashes goes on at the
/// end of their line as if it had begun there.
pub proof fn comment_is_passed_over(s: Seq<char>, start: int, line: nat)
    requires
        holds(s, start, '/'),
        holds(s, start + 1, '/'),
    ensures
        scan_from(s, start, line) == scan_from(
            s,
            run_end(s, start + 2, CharClass::CommentText),
            line,
        ),
{
    let rest = scan_from(s, run_end(s, start + 2, CharClass::CommentText), line);
    assert(rest.after(Seq::empty()) =~= rest);
}

/// Decimal text: digits with at most one point among them, which neither
/// begins nor ends the text.
pub open spec fn is_decimal_literal(text: Seq<char>) -> bool {
    &&& text.len() > 0
    &&& is_digit(text.first())
    &&& is_digit(text.last())
    &&& forall|i: int| 0 <= i < text.len() ==> is_digit(#[trigger] text[i]) || text[i] == '.'
    &&& forall|i: int, j: int|
        0 <= i < j < text.len() ==> !(#[trigger] text[i] == '.' && #[trigger] text[j] == '.')
}

/// Decimal text, scanned by itself, is one number: the number literal at
/// its start is the whole text, whose bytes are as many as its characters.
/// The first step yields a number token that carries the whole text, the
/// second yields nothing, and neither records a diagnostic.
pub proof fn decimal_literal_is_one_number(text: Seq<char>, line: nat)
    requires
        is_decimal_literal(text),
    ensures
        number_end(text, 0) == text.len(),
        byte_len(text) == text.len(),
        scan_from(text, 0, line) == (Outcome {
            token: Some(TokenView::Number(text)),
            index: text.len() as int,
            line,
            diagnostics: Seq::empty(),
        }),
        scan_from(text, text.len() as int, line) == (Outcome {
            token: None,
            index: text.len() as int,
            line,
            diagnostics: Seq::empty(),
        }),
{
    let end = text.len() as int;
    lemma_run_end(text, 0, CharClass::Digit);
    let whole = run_end(text, 0, CharClass::Digit);
    if whole < end {
        assert(text[whole] == '.');
        lemma_run_end(text, whole + 1, CharClass::Digit);
        let fraction = run_end(text, whole + 1, CharClass::Digit);
        if fraction < end {
            assert(text[fraction] == '.');
        }
    }
    assert(number_end(text, 0) == end);
    assert(text.subrange(0, end) =~= text);
    lemma_byte_offset_ascii(text, 0, end);
    assert(punctuation(text[0]) is None);
    assert(operator(text[0], false) is None);
}

/// A comment by itself yields nothing: a text that begins with two slashes
/// and holds no newline behind them has no token and no diagnostic.
pub proof fn comment_alone_is_exhausted(s: Seq<char>, line: nat)
    requires
        holds(s, 0, '/'),
        holds(s, 1, '/'),
        forall|k: int| 2 <= k < s.len() ==> #[trigger] s[k] != '\n',
    ensures
        scan_from(s, 0, line) == (Outcome {
            token: None,
            index: s.len() as int,
            line,
            diagnostics: Seq::empty(),
        }),
{
    let end = s.len() as int;
    lemma_run_end_is(s, 2, CharClass::CommentText, end);
    comment_is_passed_over(s, 0, line);
}

/// A string literal is the text between its quotes: a text without a double
/// quote, scanned between two of them, is one string token that carries it,
/// whatever else the text holds. The step behind it yields nothing, and
/// neither records a diagnostic.
pub proof fn string_literal_is_its_text(text: Seq<char>, line: nat)
    requires
        forall|k: int| 0 <= k < text.len() ==> #[trigger] text[k] != '"',
    ensures
        ({
            let s = seq!['"'] + text + seq!['"'];
            &&& scan_from(s, 0, line) == (Outcome {
                token: Some(TokenView::String(text)),
                index: s.len() as int,
                line,
                diagnostics: Seq::empty(),
            })
            &&& scan_from(s, s.len() as int, line) == (Outcome {
                token: None,
                index: s.len() as int,
                line,
                diagnostics: Seq::empty(),
            })
        }),
{
    let s = seq!['"'] + text + seq!['"'];
    let close = text.len() as int + 1;
    assert forall|k: int| 1 <= k < close implies CharClass::StringText.matches(#[trigger] s[k]) by {
        assert(s[k] == text[k - 1]);
    }
    lemma_run_end_is(s, 1, CharClass::StringText, close);
    assert(s.subrange(1, close) =~= text);
}

/// A string literal without its closing quote yields nothing and is
/// reported: a text without a double quote, scanned behind one, has no
/// token, and the one diagnostic says so, with the line of the quote.
pub proof fn unterminated_string_is_reported(text: Seq<char>, line: nat)
    requires
        forall|k: int| 0 <= k < text.len() ==> #[trigger] text[k] != '"',
    ensures
        ({
            let s = seq!['"'] + text;
            scan_from(s, 0, line) == (Outcome {
                token: None,
                index: s.len() as int,
                line,
                diagnostics: seq![
                    DiagnosticView { error: LexicalError::UnterminatedString, line },
                ],
            })
        }),
{
    let s = seq!['"'] + text;
    let end = s.len() as int;
    assert forall|k: int| 1 <= k < end implies CharClass::StringText.matches(#[trigger] s[k]) by {
        assert(s[k] == text[k - 1]);
    }
    lemma_run_end_is(s, 1, CharClass::StringText, end);
    let rest = scan_from(s, end, line);
    assert(rest.after(seq![DiagnosticView { error: LexicalError::UnterminatedString, line }])
        =~= (Outcome {
        token: None,
        index: end,
        line,
        diagnostics: seq![DiagnosticView { error: LexicalError::UnterminatedString, line }],
    }));
}

/// A character to which the grammar gives a meaning before it asks whether
/// it is a letter: whitespace, a digit, punctuation, an operator, a double
/// quote or a slash.
pub open spec fn is_symbol(c: char) -> bool {
    ||| is_white_space(c)
    ||| is_digit(c)
    ||| punctuation(c) is Some
    ||| operator(c, false) is Some
    ||| c == '"'
    ||| c == '/'
}

/// A word: a letter that is no symbol, and behind it letters, other
/// alphanumeric characters and underscores.
pub open spec fn is_word(text: Seq<char>) -> bool {
    &&& text.len() > 0
    &&& is_identifier_start(text[0])
    &&& !is_symbol(text[0])
    &&& forall|k: int| 0 <= k < text.len() ==> is_identifier_part(#[trigger] text[k])
}

/// A word, scanned by itself, is one token: its reserved word if it spells
/// one, and else an identifier that carries the whole word. The step behind
/// it yields nothing, and neither records a diagnostic.
pub proof fn word_is_one_token(text: Seq<char>, line: nat)
    ensures
        is_word(text) ==> {
            &&& scan_from(text, 0, line) == (Outcome {
                token: Some(word(text)),
                index: text.len() as int,
                line,
                diagnostics: Seq::empty(),
            })
            &&& scan_from(text, text.len() as int, line) == (Outcome {
                token: None,
                index: text.len() as int,
                line,
                diagnostics: Seq::empty(),
            })
        },
{
    if is_word(text) {
        let end = text.len() as int;
        lemma_run_end_is(text, 0, CharClass::IdentifierPart, end);
        assert(text.subrange(0, end) =~= text);
    }
}

/// No reserved word begins a longer one: a word that goes on behind a
/// reserved word is an identifier.
pub proof fn longer_word_is_not_reserved(reserved: Seq<char>, rest: Seq<char>)
    requires
        keyword(reserved) is Some,
        rest.len() > 0,
    ensures
        keyword(reserved + rest) is None,
        word(reserved + rest) == TokenView::Identifier(reserved + rest),
{
    reveal_strlit("and");
    reveal_strlit("class");
    reveal_strlit("else");
    reveal_strlit("false");
    reveal_strlit("for");
    reveal_strlit("fun");
    reveal_strlit("if");
    reveal_strlit("nil");
    reveal_strlit("or");
    reveal_strlit("print");
    reveal_strlit("return");
    reveal_strlit("super");
    reveal_strlit("this");
    reveal_strlit("true");
    reveal_strlit("var");
    reveal_strlit("while");
    let longer = reserved + rest;
    assert(longer.len() == reserved.len() + rest.len());
    assert(longer[0] == reserved[0]);
    assert(longer[1] == reserved[1]);
    if reserved.len() > 2 {
        assert(longer[2] == reserved[2]);
    }
}

} // verus!
