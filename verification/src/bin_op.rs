//! The binary-operator dispatch table. Every operator first demands that
//! both operands share one type; it then applies the typed
//! implementation for that type or reports which types it would have
//! accepted. Integer results use wrapping 64-bit semantics with an
//! explicit division-by-zero error; float results use IEEE-754 binary64
//! semantics over bit patterns.

use vstd::prelude::*;

use crate::error::{res_view, RuntimeError, SpecError};
use crate::float;
use crate::float::{
    f64_add, f64_div, f64_eq, f64_ge, f64_gt, f64_le, f64_lt, f64_mul, f64_rem, f64_sub,
};
use crate::type_::{lemma_spec_type_seq_index, spec_type, spec_type_seq, SpecType, Type};
use crate::value::{SpecValue, Value};

verus! {

/// One of the language's eleven binary operators, grouped into the
/// arithmetic/relational family and the equality family.
#[derive(Debug, Clone, Copy, PartialEq, Eq, Structural)]
pub enum BinaryOp {
    Add,
    Sub,
    Mul,
    Div,
    Mod,
    Eq,
    Ne,
    Gt,
    Lt,
    Ge,
    Le,
}

pub open spec fn is_equality(op: BinaryOp) -> bool {
    op == BinaryOp::Eq || op == BinaryOp::Ne
}

/// Semantics of an operator on two `Int64` operands: wrapping 64-bit
/// arithmetic, truncating division, and a `DivisionByZero` error for a
/// zero divisor.
pub open spec fn spec_int_op(op: BinaryOp, a: i64, b: i64) -> Result<SpecValue, SpecError> {
    match op {
        BinaryOp::Add => Ok(SpecValue::Int64(a.wrapping_add(b))),
        BinaryOp::Sub => Ok(SpecValue::Int64(a.wrapping_sub(b))),
        BinaryOp::Mul => Ok(SpecValue::Int64(a.wrapping_mul(b))),
        BinaryOp::Div => if b == 0 {
            Err(SpecError::DivisionByZero)
        } else {
            match a.checked_div(b) {
                Some(q) => Ok(SpecValue::Int64(q)),
                None => Ok(SpecValue::Int64(i64::MIN)),
            }
        },
        BinaryOp::Mod => if b == 0 {
            Err(SpecError::DivisionByZero)
        } else {
            match a.checked_rem(b) {
                Some(m) => Ok(SpecValue::Int64(m)),
                None => Ok(SpecValue::Int64(0)),
            }
        },
        BinaryOp::Eq => Ok(SpecValue::Bool(a == b)),
        BinaryOp::Ne => Ok(SpecValue::Bool(a != b)),
        BinaryOp::Gt => Ok(SpecValue::Bool(a > b)),
        BinaryOp::Lt => Ok(SpecValue::Bool(a < b)),
        BinaryOp::Ge => Ok(SpecValue::Bool(a >= b)),
        BinaryOp::Le => Ok(SpecValue::Bool(a <= b)),
    }
}

/// Semantics of an operator on two `Float64` operands, over the named
/// IEEE-754 primitives. Division by zero follows IEEE (infinities and
/// NaNs), never an error.
pub open spec fn spec_float_op(op: BinaryOp, a: u64, b: u64) -> Result<SpecValue, SpecError> {
    match op {
        BinaryOp::Add => Ok(SpecValue::Float64(f64_add(a, b))),
        BinaryOp::Sub => Ok(SpecValue::Float64(f64_sub(a, b))),
        BinaryOp::Mul => Ok(SpecValue::Float64(f64_mul(a, b))),
        BinaryOp::Div => Ok(SpecValue::Float64(f64_div(a, b))),
        BinaryOp::Mod => Ok(SpecValue::Float64(f64_rem(a, b))),
        BinaryOp::Eq => Ok(SpecValue::Bool(f64_eq(a, b))),
        BinaryOp::Ne => Ok(SpecValue::Bool(!f64_eq(a, b))),
        BinaryOp::Gt => Ok(SpecValue::Bool(f64_gt(a, b))),
        BinaryOp::Lt => Ok(SpecValue::Bool(f64_lt(a, b))),
        BinaryOp::Ge => Ok(SpecValue::Bool(f64_ge(a, b))),
        BinaryOp::Le => Ok(SpecValue::Bool(f64_le(a, b))),
    }
}

/// Semantics of an operator on two `Bool` operands: only the equality
/// family is defined.
pub open spec fn spec_bool_op(op: BinaryOp, a: bool, b: bool) -> Result<SpecValue, SpecError> {
    match op {
        BinaryOp::Eq => Ok(SpecValue::Bool(a == b)),
        BinaryOp::Ne => Ok(SpecValue::Bool(a != b)),
        _ => Err(
            SpecError::TypeError {
                current: SpecType::Bool,
                expected: seq![SpecType::Int64, SpecType::Float64],
            },
        ),
    }
}

/// Semantics of every binary operator on two already-evaluated values:
/// operands of differing type always fail with a `TypeError` naming the
/// left operand's type as the expected one; equality of function values
/// is `Unsupported`; equality of `Undefined` has no accepted type.
pub open spec fn spec_apply(op: BinaryOp, a: SpecValue, b: SpecValue) -> Result<
    SpecValue,
    SpecError,
> {
    match (a, b) {
        (SpecValue::Int64(x), SpecValue::Int64(y)) => spec_int_op(op, x, y),
        (SpecValue::Float64(x), SpecValue::Float64(y)) => spec_float_op(op, x, y),
        (SpecValue::Bool(x), SpecValue::Bool(y)) => spec_bool_op(op, x, y),
        (SpecValue::Function { type_: ts, .. }, SpecValue::Function { type_: us, .. }) => if ts
            != us {
            Err(SpecError::TypeError { expected: seq![a.typ()], current: b.typ() })
        } else if is_equality(op) {
            Err(SpecError::Unsupported { operation: op, type_: SpecType::Function(ts) })
        } else {
            Err(
                SpecError::TypeError {
                    current: SpecType::Function(ts),
                    expected: seq![SpecType::Int64, SpecType::Float64],
                },
            )
        },
        (SpecValue::Undefined, SpecValue::Undefined) => if is_equality(op) {
            Err(SpecError::TypeError { current: SpecType::Undefined, expected: Seq::empty() })
        } else {
            Err(
                SpecError::TypeError {
                    current: SpecType::Undefined,
                    expected: seq![SpecType::Int64, SpecType::Float64],
                },
            )
        },
        _ => Err(SpecError::TypeError { expected: seq![a.typ()], current: b.typ() }),
    }
}

proof fn lemma_type_seq_singleton(t: Type)
    ensures
        spec_type_seq(seq![t]) == seq![spec_type(t)],
{
    lemma_spec_type_seq_index(seq![t], 0);
    assert(spec_type_seq(seq![t]) =~= seq![spec_type(t)]);
}

proof fn lemma_type_seq_pair(t1: Type, t2: Type)
    ensures
        spec_type_seq(seq![t1, t2]) == seq![spec_type(t1), spec_type(t2)],
{
    lemma_spec_type_seq_index(seq![t1, t2], 0);
    lemma_spec_type_seq_index(seq![t1, t2], 1);
    assert(spec_type_seq(seq![t1, t2]) =~= seq![spec_type(t1), spec_type(t2)]);
}

/// The `expected` list of a type-homogeneity error: the left operand's
/// own type.
pub(crate) fn expected_only(t: Type) -> (v: Vec<Type>)
    ensures
        spec_type_seq(v@) == seq![t@],
{
    let ghost gt = t;
    let mut v: Vec<Type> = Vec::new();
    v.push(t);
    proof {
        assert(v@ =~= seq![gt]);
        lemma_type_seq_singleton(gt);
    }
    v
}

/// The `expected` list of the arithmetic/relational family.
pub(crate) fn expected_numeric() -> (v: Vec<Type>)
    ensures
        spec_type_seq(v@) == seq![SpecType::Int64, SpecType::Float64],
{
    let mut v: Vec<Type> = Vec::new();
    v.push(Type::Int64);
    v.push(Type::Float64);
    proof {
        assert(v@ =~= seq![Type::Int64, Type::Float64]);
        lemma_type_seq_pair(Type::Int64, Type::Float64);
    }
    v
}

/// Applies one binary operator to two already-evaluated values.
pub fn apply(op: BinaryOp, v1: &Value, v2: &Value) -> (r: Result<Value, RuntimeError>)
    ensures
        res_view(r) == spec_apply(op, v1@, v2@),
{
    match (v1, v2) {
        (Value::Int64(x), Value::Int64(y)) => match op {
            BinaryOp::Add => Ok(Value::Int64(x.wrapping_add(*y))),
            BinaryOp::Sub => Ok(Value::Int64(x.wrapping_sub(*y))),
            BinaryOp::Mul => Ok(Value::Int64(x.wrapping_mul(*y))),
            BinaryOp::Div => if *y == 0 {
                Err(RuntimeError::DivisionByZero)
            } else {
                match x.checked_div(*y) {
                    Some(q) => Ok(Value::Int64(q)),
                    None => Ok(Value::Int64(i64::MIN)),
                }
            },
            BinaryOp::Mod => if *y == 0 {
                Err(RuntimeError::DivisionByZero)
            } else {
                match x.checked_rem(*y) {
                    Some(m) => Ok(Value::Int64(m)),
                    None => Ok(Value::Int64(0)),
                }
            },
            BinaryOp::Eq => Ok(Value::Bool(*x == *y)),
            BinaryOp::Ne => Ok(Value::Bool(*x != *y)),
            BinaryOp::Gt => Ok(Value::Bool(*x > *y)),
            BinaryOp::Lt => Ok(Value::Bool(*x < *y)),
            BinaryOp::Ge => Ok(Value::Bool(*x >= *y)),
            BinaryOp::Le => Ok(Value::Bool(*x <= *y)),
        },
        (Value::Float64(x), Value::Float64(y)) => match op {
            BinaryOp::Add => Ok(Value::Float64(float::add_bits(*x, *y))),
            BinaryOp::Sub => Ok(Value::Float64(float::sub_bits(*x, *y))),
            BinaryOp::Mul => Ok(Value::Float64(float::mul_bits(*x, *y))),
            BinaryOp::Div => Ok(Value::Float64(float::div_bits(*x, *y))),
            BinaryOp::Mod => Ok(Value::Float64(float::rem_bits(*x, *y))),
            BinaryOp::Eq => Ok(Value::Bool(float::eq_bits(*x, *y))),
            BinaryOp::Ne => Ok(Value::Bool(!float::eq_bits(*x, *y))),
            BinaryOp::Gt => Ok(Value::Bool(float::gt_bits(*x, *y))),
            BinaryOp::Lt => Ok(Value::Bool(float::lt_bits(*x, *y))),
            BinaryOp::Ge => Ok(Value::Bool(float::ge_bits(*x, *y))),
            BinaryOp::Le => Ok(Value::Bool(float::le_bits(*x, *y))),
        },
        (Value::Bool(x), Value::Bool(y)) => match op {
            BinaryOp::Eq => Ok(Value::Bool(*x == *y)),
            BinaryOp::Ne => Ok(Value::Bool(*x != *y)),
            _ => Err(
                RuntimeError::TypeError { current: Type::Bool, expected: expected_numeric() },
            ),
        },
        (Value::Function(f), Value::Function(g)) => {
            let same = crate::type_::eq_type_vec(&f.type_, &g.type_);
            if !same {
                let t1 = v1.type_();
                let t2 = v2.type_();
                Err(RuntimeError::TypeError { expected: expected_only(t1), current: t2 })
            } else {
                match op {
                    BinaryOp::Eq | BinaryOp::Ne => Err(
                        RuntimeError::Unsupported { operation: op, type_: v1.type_() },
                    ),
                    _ => Err(
                        RuntimeError::TypeError {
                            current: v1.type_(),
                            expected: expected_numeric(),
                        },
                    ),
                }
            }
        },
        (Value::Undefined, Value::Undefined) => match op {
            BinaryOp::Eq | BinaryOp::Ne => Err(
                RuntimeError::TypeError { current: Type::Undefined, expected: Vec::new() },
            ),
            _ => Err(
                RuntimeError::TypeError { current: Type::Undefined, expected: expected_numeric() },
            ),
        },
        _ => {
            let t1 = v1.type_();
            let t2 = v2.type_();
            Err(RuntimeError::TypeError { expected: expected_only(t1), current: t2 })
        },
    }
}


/// The addition operator on two already-evaluated values.
pub fn add(v1: &Value, v2: &Value) -> (r: Result<Value, RuntimeError>)
    ensures
        res_view(r) == spec_apply(BinaryOp::Add, v1@, v2@),
{
    apply(BinaryOp::Add, v1, v2)
}

/// The subtraction operator on two already-evaluated values.
pub fn sub(v1: &Value, v2: &Value) -> (r: Result<Value, RuntimeError>)
    ensures
        res_view(r) == spec_apply(BinaryOp::Sub, v1@, v2@),
{
    apply(BinaryOp::Sub, v1, v2)
}

/// The multiplication operator on two already-evaluated values.
pub fn mul(v1: &Value, v2: &Value) -> (r: Result<Value, RuntimeError>)
    ensures
        res_view(r) == spec_apply(BinaryOp::Mul, v1@, v2@),
{
    apply(BinaryOp::Mul, v1, v2)
}

/// The division operator on two already-evaluated values.
pub fn div(v1: &Value, v2: &Value) -> (r: Result<Value, RuntimeError>)
    ensures
        res_view(r) == spec_apply(BinaryOp::Div, v1@, v2@),
{
    apply(BinaryOp::Div, v1, v2)
}

/// The modulo operator on two already-evaluated values.
pub fn mod_(v1: &Value, v2: &Value) -> (r: Result<Value, RuntimeError>)
    ensures
        res_view(r) == spec_apply(BinaryOp::Mod, v1@, v2@),
{
    apply(BinaryOp::Mod, v1, v2)
}

/// The greater-than operator on two already-evaluated values.
pub fn gt(v1: &Value, v2: &Value) -> (r: Result<Value, RuntimeError>)
    ensures
        res_view(r) == spec_apply(BinaryOp::Gt, v1@, v2@),
{
    apply(BinaryOp::Gt, v1, v2)
}

/// The less-than operator on two already-evaluated values.
pub fn lt(v1: &Value, v2: &Value) -> (r: Result<Value, RuntimeError>)
    ensures
        res_view(r) == spec_apply(BinaryOp::Lt, v1@, v2@),
{
    apply(BinaryOp::Lt, v1, v2)
}

/// The greater-or-equal operator on two already-evaluated values.
pub fn ge(v1: &Value, v2: &Value) -> (r: Result<Value, RuntimeError>)
    ensures
        res_view(r) == spec_apply(BinaryOp::Ge, v1@, v2@),
{
    apply(BinaryOp::Ge, v1, v2)
}

/// The less-or-equal operator on two already-evaluated values.
pub fn le(v1: &Value, v2: &Value) -> (r: Result<Value, RuntimeError>)
    ensures
        res_view(r) == spec_apply(BinaryOp::Le, v1@, v2@),
{
    apply(BinaryOp::Le, v1, v2)
}

/// The equality operator on two already-evaluated values.
pub fn eq(v1: &Value, v2: &Value) -> (r: Result<Value, RuntimeError>)
    ensures
        res_view(r) == spec_apply(BinaryOp::Eq, v1@, v2@),
{
    apply(BinaryOp::Eq, v1, v2)
}

/// The inequality operator on two already-evaluated values.
pub fn ne(v1: &Value, v2: &Value) -> (r: Result<Value, RuntimeError>)
    ensures
        res_view(r) == spec_apply(BinaryOp::Ne, v1@, v2@),
{
    apply(BinaryOp::Ne, v1, v2)
}

/// A successful operator application yields a scalar, which is well
/// formed whatever the operands were.
pub proof fn lemma_apply_wf(op: BinaryOp, a: SpecValue, b: SpecValue)
    ensures
        (match spec_apply(op, a, b) {
            Ok(v) => crate::value::wf_value(v),
            Err(_) => true,
        }),
{
}

/// Operator type-homogeneity: whatever the operator, operands of
/// differing type fail with a `TypeError` that carries the right
/// operand's type as found and the left operand's type as expected.
pub proof fn lemma_op_type_homogeneity(op: BinaryOp, a: SpecValue, b: SpecValue)
    requires
        a.typ() != b.typ(),
    ensures
        spec_apply(op, a, b) == Err::<SpecValue, SpecError>(
            SpecError::TypeError { expected: seq![a.typ()], current: b.typ() },
        ),
{
}

/// Integer division by zero is a `DivisionByZero` error, never a crash.
pub proof fn lemma_int_div_by_zero(a: i64)
    ensures
        spec_apply(BinaryOp::Div, SpecValue::Int64(a), SpecValue::Int64(0)) == Err::<
            SpecValue,
            SpecError,
        >(SpecError::DivisionByZero),
{
}

/// Integer modulo by zero is a `DivisionByZero` error, never a crash.
pub proof fn lemma_int_mod_by_zero(a: i64)
    ensures
        spec_apply(BinaryOp::Mod, SpecValue::Int64(a), SpecValue::Int64(0)) == Err::<
            SpecValue,
            SpecError,
        >(SpecError::DivisionByZero),
{
}

} // verus!
