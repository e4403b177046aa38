//! The failures that lexing, parsing and evaluation can end in.

use crate::number::Integer;
use vstd::prelude::*;

verus! {

/// Why a line could not be turned into a value.
#[derive(Debug, PartialEq, Eq)]
pub enum CalcError {
    /// No token starts at the character with this index.
    InvalidToken(usize),
    /// The dividend of a division or remainder whose divisor was zero.
    DivisionByZero(Integer),
    UnclosedParanthesis,
    InvalidExpression,
    UnknownVariable(String),
    /// The name of a command, used where a variable's name was expected.
    SpecialVariableInvalidUse(String),
    /// The right-hand side of a shift, which was too large to shift by.
    InvalidBitShiftTooLarge(Integer),
    InvalidBitShiftNegative,
    /// The function's name, the number of arguments it takes, and the number given.
    WrongArgumentCount(String, usize, usize),
    UnknownFunction(String),
    /// A message that says which argument a function refused.
    InvalidFunctionArgument(String),
}

/// The mathematical content of a [`CalcError`].
pub enum CalcErrorView {
    InvalidToken(int),
    DivisionByZero(int),
    UnclosedParanthesis,
    InvalidExpression,
    UnknownVariable(Seq<char>),
    SpecialVariableInvalidUse(Seq<char>),
    InvalidBitShiftTooLarge(int),
    InvalidBitShiftNegative,
    WrongArgumentCount(Seq<char>, int, int),
    UnknownFunction(Seq<char>),
    InvalidFunctionArgument(Seq<char>),
}

impl View for CalcError {
    type V = CalcErrorView;

    open spec fn view(&self) -> CalcErrorView {
        match self {
            CalcError::InvalidToken(index) => CalcErrorView::InvalidToken(*index as int),
            CalcError::DivisionByZero(dividend) => CalcErrorView::DivisionByZero(dividend@),
            CalcError::UnclosedParanthesis => CalcErrorView::UnclosedParanthesis,
            CalcError::InvalidExpression => CalcErrorView::InvalidExpression,
            CalcError::UnknownVariable(name) => CalcErrorView::UnknownVariable(name@),
            CalcError::SpecialVariableInvalidUse(name) => CalcErrorView::SpecialVariableInvalidUse(
                name@,
            ),
            CalcError::InvalidBitShiftTooLarge(amount) => CalcErrorView::InvalidBitShiftTooLarge(
                amount@,
            ),
            CalcError::InvalidBitShiftNegative => CalcErrorView::InvalidBitShiftNegative,
            CalcError::WrongArgumentCount(name, expected, given) => {
                CalcErrorView::WrongArgumentCount(name@, *expected as int, *given as int)
            },
            CalcError::UnknownFunction(name) => CalcErrorView::UnknownFunction(name@),
            CalcError::InvalidFunctionArgument(message) => CalcErrorView::InvalidFunctionArgument(
                message@,
            ),
        }
    }
}

} // verus!
