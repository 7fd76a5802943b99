//! Tokens of the language and their source positions.
use vstd::prelude::*;

verus! {

/// A token produced by the lexer.
#[derive(Debug, PartialEq)]
pub enum Token {
    Number(i64),
    String(String),
    Boolean(bool),
    Identifier(String),
    Let,
    True,
    False,
    If,
    Else,
    While,
    For,
    Fn,
    Return,
    Break,
    Continue,
    Assign,
    Plus,
    Minus,
    Multiply,
    Divide,
    Modulo,
    Not,
    Equal,
    NotEqual,
    LessThan,
    GreaterThan,
    LessThanOrEqual,
    GreaterThanOrEqual,
    And,
    Or,
    LeftParen,
    RightParen,
    LeftBrace,
    RightBrace,
    LeftBracket,
    RightBracket,
    Comma,
    Semicolon,
    Eof,
}

/// The mathematical content of a token: text payloads as character sequences.
pub enum TokenView {
    Number(int),
    Str(Seq<char>),
    Boolean(bool),
    Identifier(Seq<char>),
    Let,
    True,
    False,
    If,
    Else,
    While,
    For,
    Fn,
    Return,
    Break,
    Continue,
    Assign,
    Plus,
    Minus,
    Multiply,
    Divide,
    Modulo,
    Not,
    Equal,
    NotEqual,
    LessThan,
    GreaterThan,
    LessThanOrEqual,
    GreaterThanOrEqual,
    And,
    Or,
    LeftParen,
    RightParen,
    LeftBrace,
    RightBrace,
    LeftBracket,
    RightBracket,
    Comma,
    Semicolon,
    Eof,
}

impl View for Token {
    type V = TokenView;

    open spec fn view(&self) -> TokenView {
        match self {
            Token::Number(n) => TokenView::Number(*n as int),
            Token::String(s) => TokenView::Str(s@),
            Token::Boolean(b) => TokenView::Boolean(*b),
            Token::Identifier(s) => TokenView::Identifier(s@),
            Token::Let => TokenView::Let,
            Token::True => TokenView::True,
            Token::False => TokenView::False,
            Token::If => TokenView::If,
            Token::Else => TokenView::Else,
            Token::While => TokenView::While,
            Token::For => TokenView::For,
            Token::Fn => TokenView::Fn,
            Token::Return => TokenView::Return,
            Token::Break => TokenView::Break,
            Token::Continue => TokenView::Continue,
            Token::Assign => TokenView::Assign,
            Token::Plus => TokenView::Plus,
            Token::Minus => TokenView::Minus,
            Token::Multiply => TokenView::Multiply,
            Token::Divide => TokenView::Divide,
            Token::Modulo => TokenView::Modulo,
            Token::Not => TokenView::Not,
            Token::Equal => TokenView::Equal,
            Token::NotEqual => TokenView::NotEqual,
            Token::LessThan => TokenView::LessThan,
            Token::GreaterThan => TokenView::GreaterThan,
            Token::LessThanOrEqual => TokenView::LessThanOrEqual,
            Token::GreaterThanOrEqual => TokenView::GreaterThanOrEqual,
            Token::And => TokenView::And,
            Token::Or => TokenView::Or,
            Token::LeftParen => TokenView::LeftParen,
            Token::RightParen => TokenView::RightParen,
            Token::LeftBrace => TokenView::LeftBrace,
            Token::RightBrace => TokenView::RightBrace,
            Token::LeftBracket => TokenView::LeftBracket,
            Token::RightBracket => TokenView::RightBracket,
            Token::Comma => TokenView::Comma,
            Token::Semicolon => TokenView::Semicolon,
            Token::Eof => TokenView::Eof,
        }
    }
}

impl Clone for Token {
    fn clone(&self) -> (r: Self)
        ensures
            r@ == self@,
    {
        match self {
            Token::Number(n) => Token::Number(*n),
            Token::String(s) => Token::String(s.clone()),
            Token::Boolean(b) => Token::Boolean(*b),
            Token::Identifier(s) => Token::Identifier(s.clone()),
            Token::Let => Token::Let,
            Token::True => Token::True,
            Token::False => Token::False,
            Token::If => Token::If,
            Token::Else => Token::Else,
            Token::While => Token::While,
            Token::For => Token::For,
            Token::Fn => Token::Fn,
            Token::Return => Token::Return,
            Token::Break => Token::Break,
            Token::Continue => Token::Continue,
            Token::Assign => Token::Assign,
            Token::Plus => Token::Plus,
            Token::Minus => Token::Minus,
            Token::Multiply => Token::Multiply,
            Token::Divide => Token::Divide,
            Token::Modulo => Token::Modulo,
            Token::Not => Token::Not,
            Token::Equal => Token::Equal,
            Token::NotEqual => Token::NotEqual,
            Token::LessThan => Token::LessThan,
            Token::GreaterThan => Token::GreaterThan,
            Token::LessThanOrEqual => Token::LessThanOrEqual,
            Token::GreaterThanOrEqual => Token::GreaterThanOrEqual,
            Token::And => Token::And,
            Token::Or => Token::Or,
            Token::LeftParen => Token::LeftParen,
            Token::RightParen => Token::RightParen,
            Token::LeftBrace => Token::LeftBrace,
            Token::RightBrace => Token::RightBrace,
            Token::LeftBracket => Token::LeftBracket,
            Token::RightBracket => Token::RightBracket,
            Token::Comma => Token::Comma,
            Token::Semicolon => Token::Semicolon,
            Token::Eof => Token::Eof,
        }
    }
}

/// A line and column, both counted from 1.
#[derive(Debug, Clone, Copy, PartialEq, Eq)]
pub struct TokenPosition {
    pub line: usize,
    pub column: usize,
}

/// A token with the position of its first character.
#[derive(Debug)]
pub struct TokenWithPosition {
    pub token: Token,
    pub position: TokenPosition,
}

} // verus!
