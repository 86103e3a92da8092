//! The error taxonomy of lexing and parsing.

use vstd::prelude::*;
use crate::eval_error::{EvalError, EvalErrorModel};
use crate::token::{Token, TokenModel};

verus! {

/// An error raised while tokenizing or parsing an input.
#[derive(Debug, Clone, PartialEq)]
pub enum ParseError {
    UnexpectedToken(Token),
    UnexpectedChar(char),
    WrongNumberOfArgs(usize),
    FunctionNotRecognized(String),
    /// A derivative was requested with respect to something that is not a
    /// bare variable.
    DerivativeNotVariable(String),
    /// Constant folding evaluated a constant sub-expression during parsing
    /// and that evaluation failed.
    EvalError(EvalError),
}

/// The mathematical model of a [`ParseError`].
pub ghost enum ParseErrorModel {
    UnexpectedToken(TokenModel),
    UnexpectedChar(char),
    WrongNumberOfArgs(int),
    FunctionNotRecognized(Seq<char>),
    DerivativeNotVariable(Seq<char>),
    EvalError(EvalErrorModel),
}

impl View for ParseError {
    type V = ParseErrorModel;

    open spec fn view(&self) -> ParseErrorModel {
        match self {
            ParseError::UnexpectedToken(t) => ParseErrorModel::UnexpectedToken(t@),
            ParseError::UnexpectedChar(c) => ParseErrorModel::UnexpectedChar(*c),
            ParseError::WrongNumberOfArgs(n) => ParseErrorModel::WrongNumberOfArgs(*n as int),
            ParseError::FunctionNotRecognized(s) => ParseErrorModel::FunctionNotRecognized(s@),
            ParseError::DerivativeNotVariable(s) => ParseErrorModel::DerivativeNotVariable(s@),
            ParseError::EvalError(e) => ParseErrorModel::EvalError(e@),
        }
    }
}

} // verus!
