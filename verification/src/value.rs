//! Runtime values: immutable scalars, function values that share their
//! body expression, and the `Undefined` sentinel. Every value reports its
//! type tag without side effects; narrowing accessors are present exactly
//! when the variant matches.

use std::rc::Rc;
use vstd::prelude::*;

use crate::expr::{spec_expr, wf_expr, Expr, SpecExpr};
use crate::type_::{clone_type_vec, spec_type_seq, SpecType, Type};

verus! {

/// A function value: the ordered parameter-type list and a shared,
/// read-only handle to the body expression. The body is shared because
/// one function value may be invoked many times without copying the tree.
#[derive(Debug)]
pub struct Function {
    pub type_: Vec<Type>,
    pub expr: Rc<Expr>,
}

/// A runtime value. `Float64` carries the IEEE-754 binary64 bit pattern;
/// the bits are opaque to the language semantics and all operations on
/// them go through the named floating-point primitives.
#[derive(Debug)]
pub enum Value {
    Int64(i64),
    Float64(u64),
    Bool(bool),
    Function(Function),
    Undefined,
}

/// Mathematical model of a `Value`.
pub enum SpecValue {
    Int64(i64),
    Float64(u64),
    Bool(bool),
    Function { type_: Seq<SpecType>, body: Box<SpecExpr> },
    Undefined,
}

impl SpecValue {
    /// The type tag of a value, at the model level.
    pub open spec fn typ(self) -> SpecType {
        match self {
            SpecValue::Int64(_) => SpecType::Int64,
            SpecValue::Float64(_) => SpecType::Float64,
            SpecValue::Bool(_) => SpecType::Bool,
            SpecValue::Function { type_, .. } => SpecType::Function(type_),
            SpecValue::Undefined => SpecType::Undefined,
        }
    }
}

/// A value is well formed when every function body inside it is.
pub open spec fn wf_value(v: SpecValue) -> bool
    decreases v,
{
    match v {
        SpecValue::Function { body, .. } => wf_expr(*body),
        _ => true,
    }
}

pub open spec fn spec_value(v: Value) -> SpecValue
    decreases v,
{
    match v {
        Value::Int64(i) => SpecValue::Int64(i),
        Value::Float64(bits) => SpecValue::Float64(bits),
        Value::Bool(b) => SpecValue::Bool(b),
        Value::Function(f) => SpecValue::Function {
            type_: spec_type_seq(f.type_@),
            body: Box::new(spec_expr(*f.expr)),
        },
        Value::Undefined => SpecValue::Undefined,
    }
}

impl View for Value {
    type V = SpecValue;

    open spec fn view(&self) -> SpecValue {
        spec_value(*self)
    }
}

/// The models of a sequence of values, elementwise.
pub open spec fn spec_value_seq(s: Seq<Value>) -> Seq<SpecValue> {
    Seq::new(s.len(), |i: int| s[i]@)
}

/// Relies on std's `Rc::clone`: the returned handle is the same shared
/// allocation, so it holds the same expression.
#[verifier::external_body]
pub(crate) fn clone_rc_expr(rc: &Rc<Expr>) -> (r: Rc<Expr>)
    ensures
        r == *rc,
{
    Rc::clone(rc)
}

/// Copy of a value; the copy has the same model. Function bodies are
/// shared, not copied.
pub fn clone_value(v: &Value) -> (r: Value)
    ensures
        r@ == v@,
{
    match v {
        Value::Int64(i) => Value::Int64(*i),
        Value::Float64(bits) => Value::Float64(*bits),
        Value::Bool(b) => Value::Bool(*b),
        Value::Function(f) => Value::Function(
            Function { type_: clone_type_vec(&f.type_), expr: clone_rc_expr(&f.expr) },
        ),
        Value::Undefined => Value::Undefined,
    }
}

impl Clone for Value {
    fn clone(&self) -> (res: Self)
        ensures
            res@ == self@,
    {
        clone_value(self)
    }
}

impl Value {
    /// The type of this value, in O(1) of its own structure and with no
    /// side effects.
    pub fn type_(&self) -> (t: Type)
        ensures
            t@ == self@.typ(),
    {
        match self {
            Value::Int64(_) => Type::Int64,
            Value::Float64(_) => Type::Float64,
            Value::Bool(_) => Type::Bool,
            Value::Function(f) => Type::Function(clone_type_vec(&f.type_)),
            Value::Undefined => Type::Undefined,
        }
    }

    /// Present exactly on `Int64`.
    pub fn as_i64(&self) -> (r: Option<i64>)
        ensures
            r == (match self@ {
                SpecValue::Int64(i) => Some(i),
                _ => None::<i64>,
            }),
    {
        match self {
            Value::Int64(i) => Some(*i),
            _ => None,
        }
    }

    /// Present exactly on `Float64`; yields the IEEE-754 bit pattern.
    pub fn as_f64_bits(&self) -> (r: Option<u64>)
        ensures
            r == (match self@ {
                SpecValue::Float64(bits) => Some(bits),
                _ => None::<u64>,
            }),
    {
        match self {
            Value::Float64(bits) => Some(*bits),
            _ => None,
        }
    }

    /// Present exactly on `Bool`.
    pub fn as_bool(&self) -> (r: Option<bool>)
        ensures
            r == (match self@ {
                SpecValue::Bool(b) => Some(b),
                _ => None::<bool>,
            }),
    {
        match self {
            Value::Bool(b) => Some(*b),
            _ => None,
        }
    }

    /// Present exactly on `Function`.
    pub fn as_function(&self) -> (r: Option<&Function>)
        ensures
            (match self@ {
                SpecValue::Function { type_, body } => r matches Some(f) && f@ == self@,
                _ => r is None,
            }),
    {
        match self {
            Value::Function(f) => Some(f),
            _ => None,
        }
    }
}

impl View for Function {
    type V = SpecValue;

    open spec fn view(&self) -> SpecValue {
        SpecValue::Function { type_: spec_type_seq(self.type_@), body: Box::new(spec_expr(*self.expr)) }
    }
}

impl Clone for Function {
    fn clone(&self) -> (res: Self)
        ensures
            res@ == self@,
    {
        Function { type_: clone_type_vec(&self.type_), expr: clone_rc_expr(&self.expr) }
    }
}

} // verus!
