//! Errors of the three pipeline stages: scanning, parsing, evaluation.

use vstd::prelude::*;
use crate::token::{Token, TokenModel};

verus! {

/// Everything that can go wrong while scanning, parsing or evaluating an
/// expression. Each variant carries the offending text or token.
#[derive(Debug, Clone, PartialEq)]
pub enum CalcError {
    /// Scanning met a character that starts no token.
    UnexpectedCharacter(char),
    /// A numeric literal with a malformed shape (for example two dots).
    MalformedNumber(String),
    /// Parsing met a token that starts no atom.
    UnexpectedToken(Token),
    /// Parsing expected the first token but found the second.
    ExpectedToken(Token, Token),
    /// A complete expression was parsed but input remained.
    TrailingInput(Token),
    /// A call to a function name that is not built in.
    UnknownFunction(String),
    /// Evaluation looked up a variable that is not bound.
    UnboundVariable(String),
}

/// Mathematical model of an error.
pub enum CalcErrorModel {
    UnexpectedCharacter(char),
    MalformedNumber(Seq<char>),
    UnexpectedToken(TokenModel),
    ExpectedToken(TokenModel, TokenModel),
    TrailingInput(TokenModel),
    UnknownFunction(Seq<char>),
    UnboundVariable(Seq<char>),
}

impl View for CalcError {
    type V = CalcErrorModel;

    open spec fn view(&self) -> CalcErrorModel {
        match self {
            CalcError::UnexpectedCharacter(c) => CalcErrorModel::UnexpectedCharacter(*c),
            CalcError::MalformedNumber(s) => CalcErrorModel::MalformedNumber(s@),
            CalcError::UnexpectedToken(t) => CalcErrorModel::UnexpectedToken(t@),
            CalcError::ExpectedToken(e, f) => CalcErrorModel::ExpectedToken(e@, f@),
            CalcError::TrailingInput(t) => CalcErrorModel::TrailingInput(t@),
            CalcError::UnknownFunction(s) => CalcErrorModel::UnknownFunction(s@),
            CalcError::UnboundVariable(s) => CalcErrorModel::UnboundVariable(s@),
        }
    }
}

} // verus!
