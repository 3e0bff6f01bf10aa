//! Character classes, reserved words and the string helpers.

use rustylox::chars::{starts_identifier, CharClass};
use rustylox::strings::{push_decimal, same_text};
use rustylox::token::{match_keyword, word_token, Token};

#[test]
fn space_is_the_white_space_property() {
    let listed = vec![
        '\u{9}', '\u{A}', '\u{B}', '\u{C}', '\u{D}', '\u{20}', '\u{85}', '\u{A0}', '\u{1680}',
        '\u{2000}', '\u{2001}', '\u{2002}', '\u{2003}', '\u{2004}', '\u{2005}', '\u{2006}',
        '\u{2007}', '\u{2008}', '\u{2009}', '\u{200A}', '\u{2028}', '\u{2029}', '\u{202F}',
        '\u{205F}', '\u{3000}',
    ];
    let mut found: Vec<char> = Vec::new();
    for code in 0u32..=0x10FFFF {
        if let Some(c) = char::from_u32(code) {
            if CharClass::Space.contains(c) {
                found.push(c);
            }
        }
    }
    assert_eq!(found, listed);
}

#[test]
fn digit_is_zero_to_nine() {
    let mut found: Vec<char> = Vec::new();
    for code in 0u32..=0x10FFFF {
        if let Some(c) = char::from_u32(code) {
            if CharClass::Digit.contains(c) {
                found.push(c);
            }
        }
    }
    assert_eq!(found, vec!['0', '1', '2', '3', '4', '5', '6', '7', '8', '9']);
}

#[test]
fn comment_text_is_all_but_the_line_feed() {
    assert!(!CharClass::CommentText.contains('\n'));
    assert!(CharClass::CommentText.contains('\r'));
    assert!(CharClass::CommentText.contains('"'));
    assert!(CharClass::CommentText.contains('/'));
    assert!(CharClass::CommentText.contains('é'));
}

#[test]
fn string_text_is_all_but_the_quote() {
    assert!(!CharClass::StringText.contains('"'));
    assert!(CharClass::StringText.contains('\n'));
    assert!(CharClass::StringText.contains('\''));
    assert!(CharClass::StringText.contains('🌎'));
}

#[test]
fn identifier_part_is_alphanumeric_or_underscore() {
    assert!(CharClass::IdentifierPart.contains('a'));
    assert!(CharClass::IdentifierPart.contains('Z'));
    assert!(CharClass::IdentifierPart.contains('0'));
    assert!(CharClass::IdentifierPart.contains('_'));
    assert!(CharClass::IdentifierPart.contains('é'));
    assert!(CharClass::IdentifierPart.contains('٣'));
    assert!(CharClass::IdentifierPart.contains('¾'));
    assert!(!CharClass::IdentifierPart.contains('-'));
    assert!(!CharClass::IdentifierPart.contains(' '));
    assert!(!CharClass::IdentifierPart.contains('$'));
    assert!(!CharClass::IdentifierPart.contains('💝'));
}

#[test]
fn identifier_part_agrees_with_the_standard_library() {
    for code in 0u32..=0x10FFFF {
        if let Some(c) = char::from_u32(code) {
            assert_eq!(
                CharClass::IdentifierPart.contains(c),
                c.is_alphanumeric() || c == '_'
            );
            assert_eq!(starts_identifier(c), c.is_alphabetic());
            if starts_identifier(c) {
                assert!(CharClass::IdentifierPart.contains(c));
            }
        }
    }
}

#[test]
fn identifier_starts_with_a_letter() {
    assert!(starts_identifier('a'));
    assert!(starts_identifier('Z'));
    assert!(starts_identifier('京'));
    assert!(!starts_identifier('_'));
    assert!(!starts_identifier('1'));
    assert!(!starts_identifier('٣'));
    assert!(!starts_identifier('💝'));
}

#[test]
fn reserved_words_are_looked_up_exactly() {
    assert_eq!(match_keyword("and"), Some(Token::And));
    assert_eq!(match_keyword("class"), Some(Token::Class));
    assert_eq!(match_keyword("else"), Some(Token::Else));
    assert_eq!(match_keyword("false"), Some(Token::False));
    assert_eq!(match_keyword("for"), Some(Token::For));
    assert_eq!(match_keyword("fun"), Some(Token::Fun));
    assert_eq!(match_keyword("if"), Some(Token::If));
    assert_eq!(match_keyword("nil"), Some(Token::Nil));
    assert_eq!(match_keyword("or"), Some(Token::Or));
    assert_eq!(match_keyword("print"), Some(Token::Print));
    assert_eq!(match_keyword("return"), Some(Token::Return));
    assert_eq!(match_keyword("super"), Some(Token::Super));
    assert_eq!(match_keyword("this"), Some(Token::This));
    assert_eq!(match_keyword("true"), Some(Token::True));
    assert_eq!(match_keyword("var"), Some(Token::Var));
    assert_eq!(match_keyword("while"), Some(Token::While));
    assert_eq!(match_keyword("classic"), None);
    assert_eq!(match_keyword("clas"), None);
    assert_eq!(match_keyword("Class"), None);
    assert_eq!(match_keyword(""), None);
    assert_eq!(match_keyword("hello_world"), None);
}

#[test]
fn word_is_reserved_or_an_identifier() {
    assert_eq!(word_token(String::from("while")), Token::While);
    assert_eq!(
        word_token(String::from("whilst")),
        Token::Identifier(String::from("whilst"))
    );
    assert_eq!(
        word_token(String::from("classic")),
        Token::Identifier(String::from("classic"))
    );
}

#[test]
fn same_text_compares_whole_strings() {
    assert!(same_text("", ""));
    assert!(same_text("print", "print"));
    assert!(same_text("é🌎", "é🌎"));
    assert!(!same_text("print", "prins"));
    assert!(!same_text("print", "prin"));
    assert!(!same_text("", "a"));
    assert!(!same_text("é", "e"));
}

#[test]
fn push_decimal_appends_the_digits() {
    let mut text = String::from("n = ");
    push_decimal(&mut text, 0);
    assert_eq!(text, "n = 0");
    push_decimal(&mut text, 7);
    assert_eq!(text, "n = 07");
    push_decimal(&mut text, 1050);
    assert_eq!(text, "n = 071050");
    let mut most = String::new();
    push_decimal(&mut most, usize::MAX);
    assert_eq!(most, usize::MAX.to_string());
}
