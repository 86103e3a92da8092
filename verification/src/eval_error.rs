//! The error taxonomy of evaluation.

use vstd::prelude::*;

verus! {

/// An error raised while evaluating an expression.
///
/// Parsing with constant folding evaluates constant sub-expressions, so a
/// [`crate::parse_error::ParseError`] can wrap one of these as well.
#[derive(Debug, Clone, PartialEq)]
pub enum EvalError {
    VariableNotDefined(String),
    DivisionByZero,
    InvalidExponentiation,
    InvalidLogarithm,
}

/// The mathematical model of an [`EvalError`]: the same variants with the
/// variable name as a sequence of characters.
pub ghost enum EvalErrorModel {
    VariableNotDefined(Seq<char>),
    DivisionByZero,
    InvalidExponentiation,
    InvalidLogarithm,
}

impl View for EvalError {
    type V = EvalErrorModel;

    open spec fn view(&self) -> EvalErrorModel {
        match self {
            EvalError::VariableNotDefined(s) => EvalErrorModel::VariableNotDefined(s@),
            EvalError::DivisionByZero => EvalErrorModel::DivisionByZero,
            EvalError::InvalidExponentiation => EvalErrorModel::InvalidExponentiation,
            EvalError::InvalidLogarithm => EvalErrorModel::InvalidLogarithm,
        }
    }
}

} // verus!
