//! Tokens and where they stand in the source.

use vstd::pervasive::unreached;
use vstd::prelude::*;

verus! {

/// The kind of a token, with the text or value that it carries.
#[derive(PartialEq, Debug)]
pub enum TokenType {
    Plus,
    Minus,
    Star,
    Slash,
    Mod,
    GreaterGreater,
    LessLess,
    Pipe,
    Xor,
    Amp,
    Tilde,
    Bang,
    AmpAmp,
    PipePipe,
    EqualEqual,
    BangEqual,
    Greater,
    GreaterEqual,
    Less,
    LessEqual,
    Equal,
    Question,
    Comma,
    Dot,
    LeftParen,
    LeftBrace,
    PlusPlus,
    MinusMinus,
    Sizeof,
    Keyword,
    Ident(String),
    StringLit(String),
}

impl Clone for TokenType {
    fn clone(&self) -> (copy: Self)
        ensures
            copy == *self,
    {
        match self {
            TokenType::Plus => TokenType::Plus,
            TokenType::Minus => TokenType::Minus,
            TokenType::Star => TokenType::Star,
            TokenType::Slash => TokenType::Slash,
            TokenType::Mod => TokenType::Mod,
            TokenType::GreaterGreater => TokenType::GreaterGreater,
            TokenType::LessLess => TokenType::LessLess,
            TokenType::Pipe => TokenType::Pipe,
            TokenType::Xor => TokenType::Xor,
            TokenType::Amp => TokenType::Amp,
            TokenType::Tilde => TokenType::Tilde,
            TokenType::Bang => TokenType::Bang,
            TokenType::AmpAmp => TokenType::AmpAmp,
            TokenType::PipePipe => TokenType::PipePipe,
            TokenType::EqualEqual => TokenType::EqualEqual,
            TokenType::BangEqual => TokenType::BangEqual,
            TokenType::Greater => TokenType::Greater,
            TokenType::GreaterEqual => TokenType::GreaterEqual,
            TokenType::Less => TokenType::Less,
            TokenType::LessEqual => TokenType::LessEqual,
            TokenType::Equal => TokenType::Equal,
            TokenType::Question => TokenType::Question,
            TokenType::Comma => TokenType::Comma,
            TokenType::Dot => TokenType::Dot,
            TokenType::LeftParen => TokenType::LeftParen,
            TokenType::LeftBrace => TokenType::LeftBrace,
            TokenType::PlusPlus => TokenType::PlusPlus,
            TokenType::MinusMinus => TokenType::MinusMinus,
            TokenType::Sizeof => TokenType::Sizeof,
            TokenType::Keyword => TokenType::Keyword,
            TokenType::Ident(name) => TokenType::Ident(name.clone()),
            TokenType::StringLit(text) => TokenType::StringLit(text.clone()),
        }
    }
}

/// Something that stands at a place in the source.
pub trait Location {
    spec fn line_of(&self) -> i32;

    spec fn column_of(&self) -> i32;

    spec fn text_of(&self) -> String;

    fn line_index(&self) -> (line: i32)
        ensures
            line == self.line_of(),
    ;

    fn column(&self) -> (column: i32)
        ensures
            column == self.column_of(),
    ;

    fn line_string(&self) -> (text: String)
        ensures
            text == self.text_of(),
    ;
}

/// A token together with its line, its column and the text of that line.
#[derive(PartialEq, Debug)]
pub struct Token {
    pub token: TokenType,
    pub line_index: i32,
    pub column: i32,
    pub line_string: String,
}

impl Clone for Token {
    fn clone(&self) -> (copy: Self)
        ensures
            copy == *self,
    {
        Token {
            token: self.token.clone(),
            line_index: self.line_index,
            column: self.column,
            line_string: self.line_string.clone(),
        }
    }
}

impl Location for Token {
    open spec fn line_of(&self) -> i32 {
        self.line_index
    }

    open spec fn column_of(&self) -> i32 {
        self.column
    }

    open spec fn text_of(&self) -> String {
        self.line_string
    }

    fn line_index(&self) -> (line: i32) {
        self.line_index
    }

    fn column(&self) -> (column: i32) {
        self.column
    }

    fn line_string(&self) -> (text: String) {
        self.line_string.clone()
    }
}

impl Token {
    pub fn new(token: TokenType, line_index: i32, column: i32, line_string: String) -> (built: Self)
        ensures
            built == (Token { token, line_index, column, line_string }),
    {
        Token { token, line_index, column, line_string }
    }

    /// The name that an identifier carries.
    pub open spec fn name(self) -> Option<Seq<char>> {
        match self.token {
            TokenType::Ident(name) => Some(name@),
            _ => None,
        }
    }

    /// The name of an identifier; other tokens have none.
    pub fn unwrap_string(&self) -> (name: String)
        requires
            self.name() is Some,
        ensures
            self.token == TokenType::Ident(name),
            self.name() == Some(name@),
    {
        match &self.token {
            TokenType::Ident(name) => name.clone(),
            _ => unreached(),
        }
    }
}

} // verus!
