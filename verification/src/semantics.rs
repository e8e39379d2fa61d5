//! The operational semantics of the language, as a total specification
//! function over the models of expressions and environments. Evaluation
//! is depth-first and left to right; the first error aborts the
//! enclosing expression and is propagated unchanged. A fuel bound on
//! invocation depth makes the definition total: `NoFuel` stands for a
//! computation that exceeds it, and fuel is consumed only when a
//! function body is entered, so the semantics of fixed-depth programs
//! does not depend on it.

use vstd::prelude::*;

use crate::bin_op::spec_apply;
use crate::error::SpecError;
use crate::expr::{SpecExpr, SpecIndex};
use crate::runtime::{find_in, lookup, SpecBindings};
use crate::type_::SpecType;
use crate::value::SpecValue;

verus! {

/// Outcome of evaluating one expression. Every arm carries the
/// environment as the evaluation left it, so the contracts pin the
/// frame chain after errors and fuel exhaustion too.
pub enum Outcome {
    Done { value: SpecValue, frame: Seq<SpecBindings> },
    Fail { error: SpecError, frame: Seq<SpecBindings> },
    NoFuel { frame: Seq<SpecBindings> },
}

/// Outcome of evaluating a list of expressions left to right against
/// one threaded environment; every arm carries that environment.
pub enum ArgsOutcome {
    Done { values: Seq<SpecValue>, frame: Seq<SpecBindings> },
    Fail { error: SpecError, frame: Seq<SpecBindings> },
    NoFuel { frame: Seq<SpecBindings> },
}

impl Outcome {
    /// The environment an evaluation left behind, whatever its outcome.
    pub open spec fn env(self) -> Seq<SpecBindings> {
        match self {
            Outcome::Done { frame, .. } => frame,
            Outcome::Fail { frame, .. } => frame,
            Outcome::NoFuel { frame } => frame,
        }
    }
}

impl ArgsOutcome {
    /// The environment a list evaluation left behind.
    pub open spec fn env(self) -> Seq<SpecBindings> {
        match self {
            ArgsOutcome::Done { frame, .. } => frame,
            ArgsOutcome::Fail { frame, .. } => frame,
            ArgsOutcome::NoFuel { frame } => frame,
        }
    }
}

/// The bindings of a fresh call frame: slot `i` holds the value of
/// `params[i]`, so slot 0 is the invoked function itself and slots 1..
/// are the arguments in call order.
pub open spec fn param_bindings(values: Seq<SpecValue>) -> SpecBindings {
    Seq::new(values.len(), |i: int| (SpecIndex::ParamIndex(i as usize), values[i]))
}

/// Evaluation of one expression against an environment chain.
pub open spec fn spec_eval(fuel: nat, e: SpecExpr, f: Seq<SpecBindings>) -> Outcome
    decreases fuel, e,
{
    match e {
        SpecExpr::Literal(v) => Outcome::Done { value: v, frame: f },
        SpecExpr::Var(idx) => match lookup(f, idx) {
            Some(v) => Outcome::Done { value: v, frame: f },
            None => Outcome::Fail { error: SpecError::Undefined { index: idx }, frame: f },
        },
        SpecExpr::Binary { op, lhs, rhs } => match spec_eval(fuel, *lhs, f) {
            Outcome::Done { value: v1, frame: f1 } => match spec_eval(fuel, *rhs, f1) {
                Outcome::Done { value: v2, frame: f2 } => match spec_apply(op, v1, v2) {
                    Ok(v) => Outcome::Done { value: v, frame: f2 },
                    Err(err) => Outcome::Fail { error: err, frame: f2 },
                },
                other => other,
            },
            other => other,
        },
        SpecExpr::Let { identifier, bind_expr, in_expr } => match spec_eval(fuel, *bind_expr, f) {
            Outcome::Done { value: v, frame: f1 } => if find_in(
                f1[0],
                SpecIndex::Name(identifier),
            ) is Some {
                Outcome::Fail { error: SpecError::MultiDefined { identifier }, frame: f1 }
            } else {
                spec_eval(
                    fuel,
                    *in_expr,
                    f1.update(0, f1[0].push((SpecIndex::Name(identifier), v))),
                )
            },
            other => other,
        },
        SpecExpr::Cond(bs) => spec_eval_cond(fuel, bs, f),
        SpecExpr::Invoke(ps) => match spec_eval_args(fuel, ps, f) {
            ArgsOutcome::Done { values, frame: f1 } => match values[0] {
                SpecValue::Function { body, .. } => if fuel == 0 {
                    Outcome::NoFuel { frame: f1 }
                } else {
                    match spec_eval(
                        (fuel - 1) as nat,
                        *body,
                        seq![param_bindings(values)] + f1,
                    ) {
                        Outcome::Done { value: v, frame: f2 } => Outcome::Done {
                            value: v,
                            frame: f2.drop_first(),
                        },
                        Outcome::Fail { error, frame: f2 } => Outcome::Fail {
                            error,
                            frame: f2.drop_first(),
                        },
                        Outcome::NoFuel { frame: f2 } => Outcome::NoFuel {
                            frame: f2.drop_first(),
                        },
                    }
                },
                v0 => Outcome::Fail {
                    error: SpecError::TypeError { current: v0.typ(), expected: Seq::empty() },
                    frame: f1,
                },
            },
            ArgsOutcome::Fail { error, frame } => Outcome::Fail { error, frame },
            ArgsOutcome::NoFuel { frame } => Outcome::NoFuel { frame },
        },
    }
}

/// Evaluation of the remaining branches of a conditional: `(condition,
/// result)` pairs in order, then the trailing default. A singleton
/// suffix is the default and is returned unconditionally; an empty
/// suffix cannot arise from a well-formed conditional.
pub open spec fn spec_eval_cond(fuel: nat, bs: Seq<SpecExpr>, f: Seq<SpecBindings>) -> Outcome
    decreases fuel, bs,
{
    if bs.len() == 0 {
        Outcome::NoFuel { frame: f }
    } else if bs.len() == 1 {
        spec_eval(fuel, bs[0], f)
    } else {
        match spec_eval(fuel, bs[0], f) {
            Outcome::Done { value: c, frame: f1 } => match c {
                SpecValue::Bool(b) => if b {
                    spec_eval(fuel, bs[1], f1)
                } else {
                    spec_eval_cond(fuel, bs.skip(2), f1)
                },
                _ => Outcome::Fail {
                    error: SpecError::TypeError {
                        current: c.typ(),
                        expected: seq![SpecType::Bool],
                    },
                    frame: f1,
                },
            },
            other => other,
        }
    }
}

/// Left-to-right evaluation of an expression list against one threaded
/// environment; the first failure wins.
pub open spec fn spec_eval_args(fuel: nat, ps: Seq<SpecExpr>, f: Seq<SpecBindings>) -> ArgsOutcome
    decreases fuel, ps,
{
    if ps.len() == 0 {
        ArgsOutcome::Done { values: Seq::empty(), frame: f }
    } else {
        match spec_eval(fuel, ps[0], f) {
            Outcome::Done { value: v, frame: f1 } => match spec_eval_args(
                fuel,
                ps.drop_first(),
                f1,
            ) {
                ArgsOutcome::Done { values, frame: f2 } => ArgsOutcome::Done {
                    values: seq![v] + values,
                    frame: f2,
                },
                other => other,
            },
            Outcome::Fail { error, frame } => ArgsOutcome::Fail { error, frame },
            Outcome::NoFuel { frame } => ArgsOutcome::NoFuel { frame },
        }
    }
}

/// How an executable evaluation result realises a semantic outcome:
/// `None` stands for fuel exhaustion, and on every outcome — value,
/// error or exhaustion — the final environment agrees with the model.
pub open spec fn eval_post(
    o: Outcome,
    r: Option<Result<crate::value::Value, crate::error::RuntimeError>>,
    fr: Seq<SpecBindings>,
) -> bool {
    match o {
        Outcome::Done { value, frame } => (match r {
            Some(Ok(v)) => v@ == value && fr == frame,
            _ => false,
        }),
        Outcome::Fail { error, frame } => (match r {
            Some(Err(e)) => e@ == error && fr == frame,
            _ => false,
        }),
        Outcome::NoFuel { frame } => r is None && fr == frame,
    }
}

} // verus!
