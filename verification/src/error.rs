//! Failure kinds reported by the parser and the evaluator.

use vstd::prelude::*;
use crate::ast::{BinaryOp, UnaryOp};

verus! {

/// The three shapes a value can take, used to report operand types.
#[derive(Clone, Copy, Debug, PartialEq, Eq, Hash, Structural)]
pub enum ValueKind {
    Str,
    Bool,
    Int,
}

/// The operator on whose behalf an operand was rejected.
#[derive(Clone, Copy, Debug, PartialEq, Eq, Hash, Structural)]
pub enum Operator {
    Unary(UnaryOp),
    Binary(BinaryOp),
}

/// A base-94 numeral held a character outside the digit range. The field is
/// the first such character.
#[derive(Clone, Copy, Debug, PartialEq, Eq, Hash, Structural)]
pub struct InvalidDigit(pub char);

/// Why a reduction could not be carried out.
#[derive(Clone, Copy, Debug, PartialEq, Eq, Hash, Structural)]
pub enum EvalError {
    /// A variable was reduced while the environment held no binding for it.
    UnboundVariable(i64),
    /// An operator received an operand of a kind it does not accept.
    TypeMismatch { operator: Operator, expected: ValueKind, actual: ValueKind },
    /// The right operand of a division or remainder was zero.
    DivisionByZero,
    /// The count given to take or drop was negative or exceeded the string's length.
    IndexOutOfRange,
    /// The function position of an application reduced to a literal.
    ApplyNonFunction,
    /// The guard of a conditional reduced to a literal that is not a boolean.
    NonBooleanCondition,
    /// The iteration budget or the nesting allowance ran out.
    NonTermination,
    /// A string converted to an integer enciphers to a character that is not a
    /// base-94 digit. The field is the first such character.
    InvalidDigit(char),
}

/// Why a token stream or a raw tree was rejected.
#[derive(Clone, Copy, Debug, PartialEq, Eq, Hash, Structural)]
pub enum ParseError {
    /// The indicator of a token is not one the grammar knows. The field is the
    /// indicator.
    UnrecognizedGrammarRule(char),
    /// A node's body or number of children does not fit its indicator.
    MalformedNode,
    /// The body of an operator token is not an operator code.
    UnknownOperator,
    /// A base-94 body held a character outside the digit range. The field is
    /// the first such character.
    InvalidDigit(char),
    /// The tokens ended before the expression was complete.
    UnexpectedEnd,
    /// Tokens were left over after one complete expression.
    TrailingTokens,
    /// The counter that hands out fresh identifiers has reached its lower limit.
    IdentifiersExhausted,
}

} // verus!
