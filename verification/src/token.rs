//! Lexical tokens and their parsing properties.

use vstd::prelude::*;

verus! {

/// A lexical token. Numeric literals carry the exact text that was scanned;
/// the driver that performs the arithmetic turns that text into a number.
#[derive(Debug, Clone, PartialEq)]
pub enum Token {
    LeftParenthesis,
    RightParenthesis,
    Plus,
    Minus,
    Multiply,
    Divide,
    Caret,
    Equals,
    /// Numeric literal: the scanned digits-and-dot text.
    Number(String),
    /// Identifier or function name.
    Symbol(String),
    /// End of input marker.
    EndOfFile,
}

/// Mathematical model of a token: string payloads become character sequences.
pub enum TokenModel {
    LeftParenthesis,
    RightParenthesis,
    Plus,
    Minus,
    Multiply,
    Divide,
    Caret,
    Equals,
    Number(Seq<char>),
    Symbol(Seq<char>),
    EndOfFile,
}

impl View for Token {
    type V = TokenModel;

    open spec fn view(&self) -> TokenModel {
        match self {
            Token::LeftParenthesis => TokenModel::LeftParenthesis,
            Token::RightParenthesis => TokenModel::RightParenthesis,
            Token::Plus => TokenModel::Plus,
            Token::Minus => TokenModel::Minus,
            Token::Multiply => TokenModel::Multiply,
            Token::Divide => TokenModel::Divide,
            Token::Caret => TokenModel::Caret,
            Token::Equals => TokenModel::Equals,
            Token::Number(s) => TokenModel::Number(s@),
            Token::Symbol(s) => TokenModel::Symbol(s@),
            Token::EndOfFile => TokenModel::EndOfFile,
        }
    }
}

/// Defines operator associativity for parsing.
#[derive(Debug, Clone, Copy, PartialEq, Eq, Structural)]
pub enum Associativity {
    /// Left-associative: a + b + c = (a + b) + c
    Left,
    /// Right-associative: a ^ b ^ c = a ^ (b ^ c)
    Right,
}

/// Precedence and associativity of a binary operator token, or `None` for a
/// token that is not a binary operator. Higher precedence binds tighter.
pub open spec fn spec_precedence_and_associativity(t: TokenModel) -> Option<(u8, Associativity)> {
    match t {
        TokenModel::Plus | TokenModel::Minus => Some((1u8, Associativity::Left)),
        TokenModel::Multiply | TokenModel::Divide => Some((2u8, Associativity::Left)),
        TokenModel::Caret => Some((3u8, Associativity::Right)),
        _ => None,
    }
}

impl Token {
    /// Returns precedence and associativity for operator tokens.
    pub fn precedence_and_associativity(&self) -> (r: Option<(u8, Associativity)>)
        ensures
            r == spec_precedence_and_associativity(self@),
    {
        match self {
            Token::Plus | Token::Minus => Some((1, Associativity::Left)),
            Token::Multiply | Token::Divide => Some((2, Associativity::Left)),
            Token::Caret => Some((3, Associativity::Right)),
            _ => None,
        }
    }

    /// Checks if token marks end of input.
    pub fn is_eof(&self) -> (r: bool)
        ensures
            r == (self@ is EndOfFile),
    {
        matches!(self, Token::EndOfFile)
    }

    /// An owned copy of the token, equal at the model level.
    pub fn duplicate(&self) -> (r: Token)
        ensures
            r@ == self@,
    {
        match self {
            Token::LeftParenthesis => Token::LeftParenthesis,
            Token::RightParenthesis => Token::RightParenthesis,
            Token::Plus => Token::Plus,
            Token::Minus => Token::Minus,
            Token::Multiply => Token::Multiply,
            Token::Divide => Token::Divide,
            Token::Caret => Token::Caret,
            Token::Equals => Token::Equals,
            Token::Number(s) => Token::Number(s.clone()),
            Token::Symbol(s) => Token::Symbol(s.clone()),
            Token::EndOfFile => Token::EndOfFile,
        }
    }

    /// Structural equality of two tokens, decided at the model level.
    pub fn same_as(&self, other: &Token) -> (r: bool)
        ensures
            r == (self@ == other@),
    {
        match (self, other) {
            (Token::LeftParenthesis, Token::LeftParenthesis) => true,
            (Token::RightParenthesis, Token::RightParenthesis) => true,
            (Token::Plus, Token::Plus) => true,
            (Token::Minus, Token::Minus) => true,
            (Token::Multiply, Token::Multiply) => true,
            (Token::Divide, Token::Divide) => true,
            (Token::Caret, Token::Caret) => true,
            (Token::Equals, Token::Equals) => true,
            (Token::Number(a), Token::Number(b)) => *a == *b,
            (Token::Symbol(a), Token::Symbol(b)) => *a == *b,
            (Token::EndOfFile, Token::EndOfFile) => true,
            _ => false,
        }
    }
}

} // verus!
