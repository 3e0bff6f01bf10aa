//! Diagnostics: what is recorded, on which line, and in which words.

use rustylox::{Diagnostic, LexicalError, Scanner, Token};

#[test]
fn unexpected_character_is_reported_and_skipped() {
    let mut scanner = Scanner::from("💩");
    assert_eq!(scanner.next(), None);
    assert_eq!(
        scanner.diagnostics(),
        &vec![Diagnostic { error: LexicalError::UnexpectedCharacter('💩'), line: 1 }]
    );
    assert_eq!(
        scanner.diagnostics()[0].message(),
        "Unexpected character: 💩, line 1."
    );
}

#[test]
fn scanning_goes_on_behind_an_unexpected_character() {
    let mut scanner = Scanner::from("@ + # -");
    assert_eq!(scanner.next(), Some(Token::Plus));
    assert_eq!(
        scanner.diagnostics(),
        &vec![Diagnostic { error: LexicalError::UnexpectedCharacter('@'), line: 1 }]
    );
    assert_eq!(scanner.next(), Some(Token::Minus));
    assert_eq!(
        scanner.diagnostics(),
        &vec![
            Diagnostic { error: LexicalError::UnexpectedCharacter('@'), line: 1 },
            Diagnostic { error: LexicalError::UnexpectedCharacter('#'), line: 1 },
        ]
    );
    assert_eq!(scanner.next(), None);
    assert_eq!(scanner.diagnostics().len(), 2);
}

#[test]
fn each_unexpected_character_is_reported_by_itself() {
    let mut scanner = Scanner::from("@@@");
    assert_eq!(scanner.next(), None);
    assert_eq!(
        scanner.diagnostics(),
        &vec![
            Diagnostic { error: LexicalError::UnexpectedCharacter('@'), line: 1 },
            Diagnostic { error: LexicalError::UnexpectedCharacter('@'), line: 1 },
            Diagnostic { error: LexicalError::UnexpectedCharacter('@'), line: 1 },
        ]
    );
}

#[test]
fn nothing_is_recorded_before_the_first_step() {
    let scanner = Scanner::from("@ \"open");
    assert!(scanner.diagnostics().is_empty());
}

#[test]
fn line_counts_newlines_in_whitespace() {
    let mut scanner = Scanner::from("\n\n  @\n#");
    assert_eq!(scanner.next(), None);
    assert_eq!(
        scanner.diagnostics(),
        &vec![
            Diagnostic { error: LexicalError::UnexpectedCharacter('@'), line: 3 },
            Diagnostic { error: LexicalError::UnexpectedCharacter('#'), line: 4 },
        ]
    );
}

#[test]
fn line_counts_the_newline_behind_a_comment() {
    let mut scanner = Scanner::from("// one\n// two\n@");
    assert_eq!(scanner.next(), None);
    assert_eq!(
        scanner.diagnostics(),
        &vec![Diagnostic { error: LexicalError::UnexpectedCharacter('@'), line: 3 }]
    );
}

#[test]
fn line_counts_line_feeds_only() {
    let mut scanner = Scanner::from("\r\u{2028}\u{2029}\u{85}@\r\n#");
    assert_eq!(scanner.next(), None);
    assert_eq!(
        scanner.diagnostics(),
        &vec![
            Diagnostic { error: LexicalError::UnexpectedCharacter('@'), line: 1 },
            Diagnostic { error: LexicalError::UnexpectedCharacter('#'), line: 2 },
        ]
    );
}

#[test]
fn newlines_inside_a_string_are_not_counted() {
    let mut scanner = Scanner::from("\"a\nb\n\" @\n#");
    assert_eq!(scanner.next(), Some(Token::String(String::from("a\nb\n"))));
    assert_eq!(scanner.next(), None);
    assert_eq!(
        scanner.diagnostics(),
        &vec![
            Diagnostic { error: LexicalError::UnexpectedCharacter('@'), line: 1 },
            Diagnostic { error: LexicalError::UnexpectedCharacter('#'), line: 2 },
        ]
    );
}

#[test]
fn unterminated_string_is_reported_on_the_line_of_its_quote() {
    let mut scanner = Scanner::from("1\n2\n\"three\nfour");
    assert_eq!(scanner.next(), Some(Token::Number(String::from("1"))));
    assert_eq!(scanner.next(), Some(Token::Number(String::from("2"))));
    assert_eq!(scanner.next(), None);
    assert_eq!(
        scanner.diagnostics(),
        &vec![Diagnostic { error: LexicalError::UnterminatedString, line: 3 }]
    );
    assert_eq!(scanner.diagnostics()[0].message(), "Unterminated string, line 3.");
}

#[test]
fn message_of_an_unexpected_character() {
    let diagnostic = Diagnostic { error: LexicalError::UnexpectedCharacter('#'), line: 12 };
    assert_eq!(diagnostic.message(), "Unexpected character: #, line 12.");
}

#[test]
fn message_of_an_unterminated_string() {
    let diagnostic = Diagnostic { error: LexicalError::UnterminatedString, line: 120 };
    assert_eq!(diagnostic.message(), "Unterminated string, line 120.");
}

#[test]
fn message_writes_the_line_in_decimal() {
    let zero = Diagnostic { error: LexicalError::UnterminatedString, line: 0 };
    assert_eq!(zero.message(), "Unterminated string, line 0.");
    let nine = Diagnostic { error: LexicalError::UnterminatedString, line: 9 };
    assert_eq!(nine.message(), "Unterminated string, line 9.");
    let ten = Diagnostic { error: LexicalError::UnterminatedString, line: 10 };
    assert_eq!(ten.message(), "Unterminated string, line 10.");
    let long = Diagnostic { error: LexicalError::UnterminatedString, line: 1234567890 };
    assert_eq!(long.message(), "Unterminated string, line 1234567890.");
    let most = Diagnostic { error: LexicalError::UnterminatedString, line: usize::MAX };
    assert_eq!(
        most.message(),
        format!("Unterminated string, line {}.", usize::MAX)
    );
}
