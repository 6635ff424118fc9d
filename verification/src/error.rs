//! The two error taxonomies of the pipeline.

use vstd::prelude::*;

verus! {

/// Why a token sequence is not an expression.
#[derive(Debug, Clone, Copy, PartialEq, Eq, Structural)]
pub enum ParseError {
    /// A closing parenthesis with no matching opening one.
    MissingLParen,
    /// The input ends with opening parentheses still unmatched.
    MissingRParen,
    /// A token that cannot begin an expression.
    ExpressionFailed,
    /// The token after `(` is not one of the four operators.
    ProcedureFailed,
    /// A token that cannot continue an argument list.
    ListFailed,
    /// A decimal literal larger than `i32::MAX`.
    LiteralOverflow,
}

/// Why an expression has no value.
#[derive(Debug, Clone, Copy, PartialEq, Eq, Structural)]
pub enum EvalError {
    /// A divisor evaluated to zero.
    DivisionByZero,
    /// An operator was applied to fewer operands than it needs.
    ArityError,
    /// The tree is not an application of an operator to a proper list of
    /// expressions.
    TypeError,
    /// Applications are nested more deeply than the evaluator's limit.
    NestingTooDeep,
}

} // verus!
