//! The token vocabulary shared by the lexer and the parser.

use vstd::prelude::*;

verus! {

/// The kind of a token, without the text a literal-carrying token holds.
#[derive(Debug, Clone, Copy, PartialEq, Eq, Structural)]
pub enum TokenType {
    Illegal,
    Eof,
    Identifier,
    Int,
    String,
    Assign,
    Plus,
    Minus,
    Bang,
    Asterisk,
    Slash,
    LessThan,
    GreaterThan,
    Equals,
    NotEquals,
    Comma,
    Semicolon,
    LeftParentesis,
    RightParentesis,
    LeftBrace,
    RightBrace,
    LeftBracket,
    RightBracket,
    Function,
    Let,
    True,
    False,
    If,
    Else,
    Return,
}

/// One lexical unit of source text.
#[derive(Debug, PartialEq, Eq)]
pub enum Token {
    Illegal,
    Eof,
    Identifier(String),
    Int(String),
    String(String),
    Assign,
    Plus,
    Minus,
    Bang,
    Asterisk,
    Slash,
    LessThan,
    GreaterThan,
    Equals,
    NotEquals,
    Comma,
    Semicolon,
    LeftParentesis,
    RightParentesis,
    LeftBrace,
    RightBrace,
    LeftBracket,
    RightBracket,
    Function,
    Let,
    True,
    False,
    If,
    Else,
    Return,
}

/// The mathematical model of a [`Token`]: the same variants, with the carried
/// text as a sequence of characters.
pub ghost enum TokenView {
    Illegal,
    Eof,
    Identifier(Seq<char>),
    Int(Seq<char>),
    String(Seq<char>),
    Assign,
    Plus,
    Minus,
    Bang,
    Asterisk,
    Slash,
    LessThan,
    GreaterThan,
    Equals,
    NotEquals,
    Comma,
    Semicolon,
    LeftParentesis,
    RightParentesis,
    LeftBrace,
    RightBrace,
    LeftBracket,
    RightBracket,
    Function,
    Let,
    True,
    False,
    If,
    Else,
    Return,
}

impl TokenView {
    /// The kind of the token.
    pub open spec fn kind(self) -> TokenType {
        match self {
            TokenView::Illegal => TokenType::Illegal,
            TokenView::Eof => TokenType::Eof,
            TokenView::Identifier(_) => TokenType::Identifier,
            TokenView::Int(_) => TokenType::Int,
            TokenView::String(_) => TokenType::String,
            TokenView::Assign => TokenType::Assign,
            TokenView::Plus => TokenType::Plus,
            TokenView::Minus => TokenType::Minus,
            TokenView::Bang => TokenType::Bang,
            TokenView::Asterisk => TokenType::Asterisk,
            TokenView::Slash => TokenType::Slash,
            TokenView::LessThan => TokenType::LessThan,
            TokenView::GreaterThan => TokenType::GreaterThan,
            TokenView::Equals => TokenType::Equals,
            TokenView::NotEquals => TokenType::NotEquals,
            TokenView::Comma => TokenType::Comma,
            TokenView::Semicolon => TokenType::Semicolon,
            TokenView::LeftParentesis => TokenType::LeftParentesis,
            TokenView::RightParentesis => TokenType::RightParentesis,
            TokenView::LeftBrace => TokenType::LeftBrace,
            TokenView::RightBrace => TokenType::RightBrace,
            TokenView::LeftBracket => TokenType::LeftBracket,
            TokenView::RightBracket => TokenType::RightBracket,
            TokenView::Function => TokenType::Function,
            TokenView::Let => TokenType::Let,
            TokenView::True => TokenType::True,
            TokenView::False => TokenType::False,
            TokenView::If => TokenType::If,
            TokenView::Else => TokenType::Else,
            TokenView::Return => TokenType::Return,
        }
    }
}

impl View for Token {
    type V = TokenView;

    open spec fn view(&self) -> TokenView {
        match self {
            Token::Illegal => TokenView::Illegal,
            Token::Eof => TokenView::Eof,
            Token::Identifier(s) => TokenView::Identifier(s@),
            Token::Int(s) => TokenView::Int(s@),
            Token::String(s) => TokenView::String(s@),
            Token::Assign => TokenView::Assign,
            Token::Plus => TokenView::Plus,
            Token::Minus => TokenView::Minus,
            Token::Bang => TokenView::Bang,
            Token::Asterisk => TokenView::Asterisk,
            Token::Slash => TokenView::Slash,
            Token::LessThan => TokenView::LessThan,
            Token::GreaterThan => TokenView::GreaterThan,
            Token::Equals => TokenView::Equals,
            Token::NotEquals => TokenView::NotEquals,
            Token::Comma => TokenView::Comma,
            Token::Semicolon => TokenView::Semicolon,
            Token::LeftParentesis => TokenView::LeftParentesis,
            Token::RightParentesis => TokenView::RightParentesis,
            Token::LeftBrace => TokenView::LeftBrace,
            Token::RightBrace => TokenView::RightBrace,
            Token::LeftBracket => TokenView::LeftBracket,
            Token::RightBracket => TokenView::RightBracket,
            Token::Function => TokenView::Function,
            Token::Let => TokenView::Let,
            Token::True => TokenView::True,
            Token::False => TokenView::False,
            Token::If => TokenView::If,
            Token::Else => TokenView::Else,
            Token::Return => TokenView::Return,
        }
    }
}

impl Token {
    /// The kind of this token.
    pub fn token_type(&self) -> (kind: TokenType)
        ensures
            kind == self@.kind(),
    {
        match self {
            Token::Illegal => TokenType::Illegal,
            Token::Eof => TokenType::Eof,
            Token::Identifier(_) => TokenType::Identifier,
            Token::Int(_) => TokenType::Int,
            Token::String(_) => TokenType::String,
            Token::Assign => TokenType::Assign,
            Token::Plus => TokenType::Plus,
            Token::Minus => TokenType::Minus,
            Token::Bang => TokenType::Bang,
            Token::Asterisk => TokenType::Asterisk,
            Token::Slash => TokenType::Slash,
            Token::LessThan => TokenType::LessThan,
            Token::GreaterThan => TokenType::GreaterThan,
            Token::Equals => TokenType::Equals,
            Token::NotEquals => TokenType::NotEquals,
            Token::Comma => TokenType::Comma,
            Token::Semicolon => TokenType::Semicolon,
            Token::LeftParentesis => TokenType::LeftParentesis,
            Token::RightParentesis => TokenType::RightParentesis,
            Token::LeftBrace => TokenType::LeftBrace,
            Token::RightBrace => TokenType::RightBrace,
            Token::LeftBracket => TokenType::LeftBracket,
            Token::RightBracket => TokenType::RightBracket,
            Token::Function => TokenType::Function,
            Token::Let => TokenType::Let,
            Token::True => TokenType::True,
            Token::False => TokenType::False,
            Token::If => TokenType::If,
            Token::Else => TokenType::Else,
            Token::Return => TokenType::Return,
        }
    }

    /// A copy of this token, equal to it in every respect.
    pub fn duplicate(&self) -> (copy: Token)
        ensures
            copy == *self,
    {
        match self {
            Token::Identifier(s) => Token::Identifier(s.clone()),
            Token::Int(s) => Token::Int(s.clone()),
            Token::String(s) => Token::String(s.clone()),
            Token::Illegal => Token::Illegal,
            Token::Eof => Token::Eof,
            Token::Assign => Token::Assign,
            Token::Plus => Token::Plus,
            Token::Minus => Token::Minus,
            Token::Bang => Token::Bang,
            Token::Asterisk => Token::Asterisk,
            Token::Slash => Token::Slash,
            Token::LessThan => Token::LessThan,
            Token::GreaterThan => Token::GreaterThan,
            Token::Equals => Token::Equals,
            Token::NotEquals => Token::NotEquals,
            Token::Comma => Token::Comma,
            Token::Semicolon => Token::Semicolon,
            Token::LeftParentesis => Token::LeftParentesis,
            Token::RightParentesis => Token::RightParentesis,
            Token::LeftBrace => Token::LeftBrace,
            Token::RightBrace => Token::RightBrace,
            Token::LeftBracket => Token::LeftBracket,
            Token::RightBracket => Token::RightBracket,
            Token::Function => Token::Function,
            Token::Let => Token::Let,
            Token::True => Token::True,
            Token::False => Token::False,
            Token::If => Token::If,
            Token::Else => Token::Else,
            Token::Return => Token::Return,
        }
    }
}

impl Clone for Token {
    fn clone(&self) -> (copy: Token)
        ensures
            copy == *self,
    {
        self.duplicate()
    }
}

} // verus!
