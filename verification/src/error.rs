//! Error taxonomy of the runtime. Every failure is an ordinary
//! recoverable result: the first error raised during a sub-evaluation is
//! propagated unchanged to the top level, and no operation aborts the
//! process.

use vstd::prelude::*;

use crate::bin_op::BinaryOp;
use crate::expr::{SpecIndex, VariableIndex};
use crate::type_::{spec_type_seq, SpecType, Type};
use crate::value::{SpecValue, Value};

verus! {

/// A failure raised while evaluating an expression.
#[derive(Debug)]
pub enum RuntimeError {
    /// An operand, condition, or callee had the wrong type.
    TypeError { expected: Vec<Type>, current: Type },
    /// A `let` tried to rebind an already-bound name in the same frame.
    MultiDefined { identifier: String },
    /// A variable or parameter lookup found no binding in the chain.
    Undefined { index: VariableIndex },
    /// Integer division or modulo with a zero divisor.
    DivisionByZero,
    /// An operation with no defined semantics for the operand type, such
    /// as equality of function values.
    Unsupported { operation: BinaryOp, type_: Type },
}

/// Mathematical model of a `RuntimeError`.
pub enum SpecError {
    TypeError { expected: Seq<SpecType>, current: SpecType },
    MultiDefined { identifier: Seq<char> },
    Undefined { index: SpecIndex },
    DivisionByZero,
    Unsupported { operation: BinaryOp, type_: SpecType },
}

impl View for RuntimeError {
    type V = SpecError;

    open spec fn view(&self) -> SpecError {
        match self {
            RuntimeError::TypeError { expected, current } => SpecError::TypeError {
                expected: spec_type_seq(expected@),
                current: current@,
            },
            RuntimeError::MultiDefined { identifier } => SpecError::MultiDefined {
                identifier: identifier@,
            },
            RuntimeError::Undefined { index } => SpecError::Undefined { index: index@ },
            RuntimeError::DivisionByZero => SpecError::DivisionByZero,
            RuntimeError::Unsupported { operation, type_ } => SpecError::Unsupported {
                operation: *operation,
                type_: type_@,
            },
        }
    }
}

/// The model of an evaluation result.
pub open spec fn res_view(r: Result<Value, RuntimeError>) -> Result<SpecValue, SpecError> {
    match r {
        Ok(v) => Ok(v@),
        Err(e) => Err(e@),
    }
}

/// The outcome of running a program text: it either fails to parse or
/// fails at runtime.
#[derive(Debug)]
pub enum Error {
    ParseError(),
    RuntimeError(RuntimeError),
}

} // verus!
