//! The token vocabulary and the table of reserved words.

use vstd::prelude::*;
use crate::strings::same_text;

verus! {

/// A lexical token.
///
/// A number carries the text of its literal, digits and an optional decimal
/// point; turning that text into a machine number is left to the caller.
#[derive(Debug, PartialEq, Eq)]
pub enum Token {
    LeftParen,
    RightParen,
    LeftBrace,
    RightBrace,
    Comma,
    Dot,
    Minus,
    Plus,
    Semicolon,
    Star,
    Slash,
    Bang,
    BangEqual,
    Equal,
    EqualEqual,
    Greater,
    GreaterEqual,
    Less,
    LessEqual,
    Identifier(String),
    String(String),
    Number(String),
    And,
    Class,
    Else,
    False,
    Fun,
    For,
    If,
    Nil,
    Or,
    Print,
    Return,
    Super,
    This,
    True,
    Var,
    While,
}

/// The mathematical value of a [`Token`]: the same kinds, with their text as
/// a sequence of characters.
pub ghost enum TokenView {
    LeftParen,
    RightParen,
    LeftBrace,
    RightBrace,
    Comma,
    Dot,
    Minus,
    Plus,
    Semicolon,
    Star,
    Slash,
    Bang,
    BangEqual,
    Equal,
    EqualEqual,
    Greater,
    GreaterEqual,
    Less,
    LessEqual,
    Identifier(Seq<char>),
    String(Seq<char>),
    Number(Seq<char>),
    And,
    Class,
    Else,
    False,
    Fun,
    For,
    If,
    Nil,
    Or,
    Print,
    Return,
    Super,
    This,
    True,
    Var,
    While,
}

impl View for Token {
    type V = TokenView;

    open spec fn view(&self) -> TokenView {
        match self {
            Token::LeftParen => TokenView::LeftParen,
            Token::RightParen => TokenView::RightParen,
            Token::LeftBrace => TokenView::LeftBrace,
            Token::RightBrace => TokenView::RightBrace,
            Token::Comma => TokenView::Comma,
            Token::Dot => TokenView::Dot,
            Token::Minus => TokenView::Minus,
            Token::Plus => TokenView::Plus,
            Token::Semicolon => TokenView::Semicolon,
            Token::Star => TokenView::Star,
            Token::Slash => TokenView::Slash,
            Token::Bang => TokenView::Bang,
            Token::BangEqual => TokenView::BangEqual,
            Token::Equal => TokenView::Equal,
            Token::EqualEqual => TokenView::EqualEqual,
            Token::Greater => TokenView::Greater,
            Token::GreaterEqual => TokenView::GreaterEqual,
            Token::Less => TokenView::Less,
            Token::LessEqual => TokenView::LessEqual,
            Token::Identifier(text) => TokenView::Identifier(text@),
            Token::String(text) => TokenView::String(text@),
            Token::Number(text) => TokenView::Number(text@),
            Token::And => TokenView::And,
            Token::Class => TokenView::Class,
            Token::Else => TokenView::Else,
            Token::False => TokenView::False,
            Token::Fun => TokenView::Fun,
            Token::For => TokenView::For,
            Token::If => TokenView::If,
            Token::Nil => TokenView::Nil,
            Token::Or => TokenView::Or,
            Token::Print => TokenView::Print,
            Token::Return => TokenView::Return,
            Token::Super => TokenView::Super,
            Token::This => TokenView::This,
            Token::True => TokenView::True,
            Token::Var => TokenView::Var,
            Token::While => TokenView::While,
        }
    }
}

impl DeepView for Token {
    type V = TokenView;

    open spec fn deep_view(&self) -> TokenView {
        self@
    }
}

/// The reserved word that `lexeme` spells, if it spells one.
pub open spec fn keyword(lexeme: Seq<char>) -> Option<TokenView> {
    if lexeme == "and"@ {
        Some(TokenView::And)
    } else if lexeme == "class"@ {
        Some(TokenView::Class)
    } else if lexeme == "else"@ {
        Some(TokenView::Else)
    } else if lexeme == "false"@ {
        Some(TokenView::False)
    } else if lexeme == "for"@ {
        Some(TokenView::For)
    } else if lexeme == "fun"@ {
        Some(TokenView::Fun)
    } else if lexeme == "if"@ {
        Some(TokenView::If)
    } else if lexeme == "nil"@ {
        Some(TokenView::Nil)
    } else if lexeme == "or"@ {
        Some(TokenView::Or)
    } else if lexeme == "print"@ {
        Some(TokenView::Print)
    } else if lexeme == "return"@ {
        Some(TokenView::Return)
    } else if lexeme == "super"@ {
        Some(TokenView::Super)
    } else if lexeme == "this"@ {
        Some(TokenView::This)
    } else if lexeme == "true"@ {
        Some(TokenView::True)
    } else if lexeme == "var"@ {
        Some(TokenView::Var)
    } else if lexeme == "while"@ {
        Some(TokenView::While)
    } else {
        None
    }
}

/// The token of the word `lexeme`: the reserved word it spells, or else an
/// identifier of that name.
pub open spec fn word(lexeme: Seq<char>) -> TokenView {
    match keyword(lexeme) {
        Some(reserved) => reserved,
        None => TokenView::Identifier(lexeme),
    }
}

/// Looks `lexeme` up in the table of reserved words.
pub fn match_keyword(lexeme: &str) -> (token: Option<Token>)
    ensures
        token.deep_view() == keyword(lexeme@),
{
    if same_text(lexeme, "and") {
        Some(Token::And)
    } else if same_text(lexeme, "class") {
        Some(Token::Class)
    } else if same_text(lexeme, "else") {
        Some(Token::Else)
    } else if same_text(lexeme, "false") {
        Some(Token::False)
    } else if same_text(lexeme, "for") {
        Some(Token::For)
    } else if same_text(lexeme, "fun") {
        Some(Token::Fun)
    } else if same_text(lexeme, "if") {
        Some(Token::If)
    } else if same_text(lexeme, "nil") {
        Some(Token::Nil)
    } else if same_text(lexeme, "or") {
        Some(Token::Or)
    } else if same_text(lexeme, "print") {
        Some(Token::Print)
    } else if same_text(lexeme, "return") {
        Some(Token::Return)
    } else if same_text(lexeme, "super") {
        Some(Token::Super)
    } else if same_text(lexeme, "this") {
        Some(Token::This)
    } else if same_text(lexeme, "true") {
        Some(Token::True)
    } else if same_text(lexeme, "var") {
        Some(Token::Var)
    } else if same_text(lexeme, "while") {
        Some(Token::While)
    } else {
        None
    }
}

/// The token of the word `lexeme`: its reserved word, or else an identifier
/// that carries the lexeme.
pub fn word_token(lexeme: String) -> (token: Token)
    ensures
        token@ == word(lexeme@),
{
    match match_keyword(lexeme.as_str()) {
        Some(reserved) => reserved,
        None => Token::Identifier(lexeme),
    }
}

} // verus!
