//! Number, string and word literals at their edges.

use rustylox::{Diagnostic, LexicalError, Scanner, Token};

#[test]
fn decimal_text_is_one_number_with_its_value() {
    let mut scanner = Scanner::from("3.14");
    match scanner.next() {
        Some(Token::Number(text)) => {
            assert_eq!(text, "3.14");
            assert_eq!(text.parse::<f32>().unwrap(), 3.14);
        }
        other => panic!("not a number: {:?}", other),
    }
    assert_eq!(scanner.next(), None);
    assert!(scanner.diagnostics().is_empty());
}

#[test]
fn long_decimal_text_is_one_number() {
    let mut scanner = Scanner::from("0012345678901234567890.000100");
    assert_eq!(
        scanner.next(),
        Some(Token::Number(String::from("0012345678901234567890.000100")))
    );
    assert_eq!(scanner.next(), None);
}

#[test]
fn number_stops_at_second_point() {
    let mut scanner = Scanner::from("1.2.3");
    assert_eq!(scanner.next(), Some(Token::Number(String::from("1.2"))));
    assert_eq!(scanner.next(), Some(Token::Dot));
    assert_eq!(scanner.next(), Some(Token::Number(String::from("3"))));
    assert_eq!(scanner.next(), None);
    assert!(scanner.diagnostics().is_empty());
}

#[test]
fn number_keeps_trailing_point() {
    let mut scanner = Scanner::from("1.");
    match scanner.next() {
        Some(Token::Number(text)) => {
            assert_eq!(text, "1.");
            assert_eq!(text.parse::<f32>().unwrap(), 1.0);
        }
        other => panic!("not a number: {:?}", other),
    }
    assert_eq!(scanner.next(), None);
}

#[test]
fn number_with_two_points_in_a_row() {
    let mut scanner = Scanner::from("1..2");
    assert_eq!(scanner.next(), Some(Token::Number(String::from("1."))));
    assert_eq!(scanner.next(), Some(Token::Dot));
    assert_eq!(scanner.next(), Some(Token::Number(String::from("2"))));
    assert_eq!(scanner.next(), None);
}

#[test]
fn leading_point_is_a_dot() {
    let mut scanner = Scanner::from(".5");
    assert_eq!(scanner.next(), Some(Token::Dot));
    assert_eq!(scanner.next(), Some(Token::Number(String::from("5"))));
    assert_eq!(scanner.next(), None);
}

#[test]
fn number_ends_before_a_letter() {
    let mut scanner = Scanner::from("12ab");
    assert_eq!(scanner.next(), Some(Token::Number(String::from("12"))));
    assert_eq!(scanner.next(), Some(Token::Identifier(String::from("ab"))));
    assert_eq!(scanner.next(), None);
}

#[test]
fn number_holds_ascii_digits_only() {
    let mut scanner = Scanner::from("1٣");
    assert_eq!(scanner.next(), Some(Token::Number(String::from("1"))));
    assert_eq!(scanner.next(), None);
    assert_eq!(
        scanner.diagnostics(),
        &vec![Diagnostic { error: LexicalError::UnexpectedCharacter('٣'), line: 1 }]
    );
}

#[test]
fn minus_is_not_part_of_a_number() {
    let mut scanner = Scanner::from("-7");
    assert_eq!(scanner.next(), Some(Token::Minus));
    assert_eq!(scanner.next(), Some(Token::Number(String::from("7"))));
    assert_eq!(scanner.next(), None);
}

#[test]
fn string_literal_is_its_inner_text() {
    let mut scanner = Scanner::from("\"Hello world!\"");
    assert_eq!(
        scanner.next(),
        Some(Token::String(String::from("Hello world!")))
    );
    assert_eq!(scanner.next(), None);
    assert!(scanner.diagnostics().is_empty());
}

#[test]
fn empty_string_literal() {
    let mut scanner = Scanner::from("\"\"");
    assert_eq!(scanner.next(), Some(Token::String(String::new())));
    assert_eq!(scanner.next(), None);
}

#[test]
fn string_literal_keeps_what_is_not_a_quote() {
    let mut scanner = Scanner::from("\"// 1 + é\n\t\";");
    assert_eq!(
        scanner.next(),
        Some(Token::String(String::from("// 1 + é\n\t")))
    );
    assert_eq!(scanner.next(), Some(Token::Semicolon));
    assert_eq!(scanner.next(), None);
}

#[test]
fn two_string_literals_side_by_side() {
    let mut scanner = Scanner::from("\"a\"\"b\"");
    assert_eq!(scanner.next(), Some(Token::String(String::from("a"))));
    assert_eq!(scanner.next(), Some(Token::String(String::from("b"))));
    assert_eq!(scanner.next(), None);
}

#[test]
fn unterminated_string_yields_nothing_and_is_reported() {
    let mut scanner = Scanner::from("\"unterminated");
    assert_eq!(scanner.next(), None);
    assert_eq!(
        scanner.diagnostics(),
        &vec![Diagnostic { error: LexicalError::UnterminatedString, line: 1 }]
    );
    assert_eq!(scanner.diagnostics()[0].message(), "Unterminated string, line 1.");
}

#[test]
fn unterminated_string_swallows_the_rest() {
    let mut scanner = Scanner::from("+ \"abc + 1\n;");
    assert_eq!(scanner.next(), Some(Token::Plus));
    assert_eq!(scanner.next(), None);
    assert_eq!(
        scanner.diagnostics(),
        &vec![Diagnostic { error: LexicalError::UnterminatedString, line: 1 }]
    );
}

#[test]
fn lone_quote_is_unterminated() {
    let mut scanner = Scanner::from("\"");
    assert_eq!(scanner.next(), None);
    assert_eq!(
        scanner.diagnostics(),
        &vec![Diagnostic { error: LexicalError::UnterminatedString, line: 1 }]
    );
}

#[test]
fn keyword_is_matched_by_its_whole_lexeme() {
    let mut scanner = Scanner::from("classic class classy");
    assert_eq!(
        scanner.next(),
        Some(Token::Identifier(String::from("classic")))
    );
    assert_eq!(scanner.next(), Some(Token::Class));
    assert_eq!(
        scanner.next(),
        Some(Token::Identifier(String::from("classy")))
    );
    assert_eq!(scanner.next(), None);
}

#[test]
fn every_keyword_has_its_token() {
    let mut scanner = Scanner::from(
        "and class else false fun for if nil or print return super this true var while",
    );
    let expected = vec![
        Token::And,
        Token::Class,
        Token::Else,
        Token::False,
        Token::Fun,
        Token::For,
        Token::If,
        Token::Nil,
        Token::Or,
        Token::Print,
        Token::Return,
        Token::Super,
        Token::This,
        Token::True,
        Token::Var,
        Token::While,
    ];
    for token in expected {
        assert_eq!(scanner.next(), Some(token));
    }
    assert_eq!(scanner.next(), None);
}

#[test]
fn keywords_are_case_sensitive() {
    let mut scanner = Scanner::from("Class WHILE nil_ _nil");
    assert_eq!(scanner.next(), Some(Token::Identifier(String::from("Class"))));
    assert_eq!(scanner.next(), Some(Token::Identifier(String::from("WHILE"))));
    assert_eq!(scanner.next(), Some(Token::Identifier(String::from("nil_"))));
    assert_eq!(scanner.next(), Some(Token::Nil));
    assert_eq!(scanner.next(), None);
    assert_eq!(
        scanner.diagnostics(),
        &vec![Diagnostic { error: LexicalError::UnexpectedCharacter('_'), line: 1 }]
    );
}

#[test]
fn identifier_takes_letters_digits_and_underscores() {
    let mut scanner = Scanner::from("a1_b2__c3+d");
    assert_eq!(
        scanner.next(),
        Some(Token::Identifier(String::from("a1_b2__c3")))
    );
    assert_eq!(scanner.next(), Some(Token::Plus));
    assert_eq!(scanner.next(), Some(Token::Identifier(String::from("d"))));
    assert_eq!(scanner.next(), None);
}

#[test]
fn identifier_takes_letters_and_numerals_of_any_script() {
    let mut scanner = Scanner::from("été x² 京都");
    assert_eq!(scanner.next(), Some(Token::Identifier(String::from("été"))));
    assert_eq!(scanner.next(), Some(Token::Identifier(String::from("x²"))));
    assert_eq!(scanner.next(), Some(Token::Identifier(String::from("京都"))));
    assert_eq!(scanner.next(), None);
    assert!(scanner.diagnostics().is_empty());
}

#[test]
fn identifier_does_not_begin_with_a_numeral_of_another_script() {
    let mut scanner = Scanner::from("²x");
    assert_eq!(scanner.next(), Some(Token::Identifier(String::from("x"))));
    assert_eq!(scanner.next(), None);
    assert_eq!(
        scanner.diagnostics(),
        &vec![Diagnostic { error: LexicalError::UnexpectedCharacter('²'), line: 1 }]
    );
}
