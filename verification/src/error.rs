//! The failure taxonomy of the evaluator.
//!
//! Every evaluation failure carries a kind drawn from a closed set.
//! `ProgramError` covers operand-shape faults raised by an operator;
//! `LangError` covers language-level faults raised by the tree walker.
//! Two kinds exist only because of the hardened execution model:
//! `DivisionByZero`, since numbers are integers and have no infinity,
//! and `DepthExceeded`, since the evaluator enforces an explicit
//! recursion budget instead of exhausting the call stack.
use vstd::prelude::*;

verus! {

/// The marker for a type that can stand as the kind of a `LispyError`.
pub trait ErrorKind {

}

/// A fault in the operands handed to an operator.
#[derive(Copy, Clone, PartialEq, Eq, Structural, Debug)]
pub enum ProgramError {
    /// The operand count does not match what the operator demands.
    WrongArity,
    /// An operand is not of the variant the operator demands.
    WrongType,
    /// The first element of an empty literal was asked for.
    EmptyList,
    /// A division or remainder step met a zero divisor.
    DivisionByZero,
}

/// A fault raised by the tree walker itself.
#[derive(Copy, Clone, PartialEq, Eq, Structural, Debug)]
pub enum LangError {
    /// A variable reference has no binding in the table.
    UnboundSymbol,
    /// The head of a group under dispatch is not a symbol.
    InvalidOperator,
    /// The parse-failure sentinel was reached during evaluation.
    ParseFailure,
    /// The recursion budget ran out before evaluation finished.
    DepthExceeded,
}

/// Either side of the taxonomy, as the evaluator reports it.
#[derive(Copy, Clone, PartialEq, Eq, Structural, Debug)]
pub enum EvalKind {
    Program(ProgramError),
    Lang(LangError),
}

impl ErrorKind for ProgramError {

}

impl ErrorKind for LangError {

}

impl ErrorKind for EvalKind {

}

/// An evaluation failure: a kind from the taxonomy and a short message
/// for display.
#[derive(Clone, PartialEq, Eq, Debug)]
pub struct LispyError<T: ErrorKind> {
    pub kind: T,
    pub message: String,
}

/// Builds a failure value from its kind and message.
pub fn make_error<T: ErrorKind>(kind: T, message: String) -> (e: LispyError<T>)
    ensures
        e.kind == kind,
        e.message == message,
{
    LispyError { kind, message }
}

/// What every evaluation step returns: a value or a typed failure.
pub type EvalResult<T> = Result<T, LispyError<EvalKind>>;

} // verus!
