//! General properties of the semantics, stated and proved once over all
//! inputs: branch laziness, conditional type checking, undefined lookup,
//! rebinding, and the calling convention of invocations.

use vstd::prelude::*;

use crate::error::SpecError;
use crate::expr::{SpecExpr, SpecIndex};
use crate::runtime::{find_in, lookup, SpecBindings};
use crate::semantics::{param_bindings, spec_eval, spec_eval_args, spec_eval_cond, ArgsOutcome, Outcome};
use crate::type_::SpecType;
use crate::value::SpecValue;

verus! {

/// Conditional laziness: in branches `[false, X, true, Y, Z]` the
/// conditional evaluates to exactly what `Y` evaluates to, whatever the
/// expressions `X` and `Z` are — they are never evaluated, so even an
/// erroring or fuel-exhausting branch there cannot be observed.
pub proof fn lemma_cond_laziness(
    fuel: nat,
    x: SpecExpr,
    y: SpecExpr,
    z: SpecExpr,
    f: Seq<SpecBindings>,
)
    ensures
        (spec_eval(
            fuel,
            SpecExpr::Cond(
                seq![
                    SpecExpr::Literal(SpecValue::Bool(false)),
                    x,
                    SpecExpr::Literal(SpecValue::Bool(true)),
                    y,
                    z,
                ],
            ),
            f,
        ) == spec_eval(fuel, y, f)),
{
    let bs = seq![
        SpecExpr::Literal(SpecValue::Bool(false)),
        x,
        SpecExpr::Literal(SpecValue::Bool(true)),
        y,
        z,
    ];
    assert(spec_eval(fuel, bs[0], f) == Outcome::Done {
        value: SpecValue::Bool(false),
        frame: f,
    });
    let rest = bs.skip(2);
    assert(rest =~= seq![SpecExpr::Literal(SpecValue::Bool(true)), y, z]);
    assert(spec_eval(fuel, rest[0], f) == Outcome::Done {
        value: SpecValue::Bool(true),
        frame: f,
    });
    assert(spec_eval_cond(fuel, rest, f) == spec_eval(fuel, y, f));
    assert(spec_eval_cond(fuel, bs, f) == spec_eval(fuel, y, f));
}

/// Conditional type check: a condition that evaluates to a non-boolean
/// value fails the whole conditional with a `TypeError` expecting
/// `Bool`, and nothing after that condition is evaluated.
pub proof fn lemma_cond_type_check(
    fuel: nat,
    bs: Seq<SpecExpr>,
    f: Seq<SpecBindings>,
    c: SpecValue,
    f1: Seq<SpecBindings>,
)
    requires
        bs.len() >= 2,
        (spec_eval(fuel, bs[0], f) == Outcome::Done { value: c, frame: f1 }),
        !(c is Bool),
    ensures
        (spec_eval_cond(fuel, bs, f) == Outcome::Fail {
            error: SpecError::TypeError { current: c.typ(), expected: seq![SpecType::Bool] },
            frame: f1,
        }),
{
}

/// Undefined lookup: a variable reference whose index is bound nowhere
/// in the chain yields exactly `Undefined` carrying that index.
pub proof fn lemma_undefined_lookup(fuel: nat, idx: SpecIndex, f: Seq<SpecBindings>)
    requires
        (lookup(f, idx) is None),
    ensures
        (spec_eval(fuel, SpecExpr::Var(idx), f) == Outcome::Fail {
            error: SpecError::Undefined { index: idx },
            frame: f,
        }),
{
}

/// Rebinding: when the bound expression of a `let` evaluates to a value
/// but its identifier is already bound in the current frame, the `let`
/// fails with `MultiDefined` and the body expression is never
/// evaluated.
pub proof fn lemma_let_rebinding(
    fuel: nat,
    identifier: Seq<char>,
    bind_expr: Box<SpecExpr>,
    in_expr: Box<SpecExpr>,
    f: Seq<SpecBindings>,
    v: SpecValue,
    f1: Seq<SpecBindings>,
)
    requires
        (spec_eval(fuel, *bind_expr, f) == Outcome::Done { value: v, frame: f1 }),
        (find_in(f1[0], SpecIndex::Name(identifier)) is Some),
    ensures
        (spec_eval(fuel, SpecExpr::Let { identifier, bind_expr, in_expr }, f) == Outcome::Fail {
            error: SpecError::MultiDefined { identifier },
            frame: f1,
        }),
{
}

/// The invocation protocol: every element of `params` — the callee at
/// slot 0 included — is evaluated against the caller's frame, and the
/// function body is then evaluated against a fresh child frame that
/// holds exactly those values in positional slots and is chained to the
/// caller's frame as it stood after the arguments were evaluated. The
/// caller's own frame is what remains when the child frame is dropped.
pub proof fn lemma_invocation_caller_frame(
    fuel: nat,
    ps: Seq<SpecExpr>,
    f: Seq<SpecBindings>,
    values: Seq<SpecValue>,
    f1: Seq<SpecBindings>,
    type_: Seq<SpecType>,
    body: Box<SpecExpr>,
)
    requires
        fuel >= 1,
        (spec_eval_args(fuel, ps, f) == ArgsOutcome::Done { values, frame: f1 }),
        (values[0] == SpecValue::Function { type_, body }),
    ensures
        (spec_eval(fuel, SpecExpr::Invoke(ps), f) == (match spec_eval(
            (fuel - 1) as nat,
            *body,
            seq![param_bindings(values)] + f1,
        ) {
            Outcome::Done { value: v, frame: f2 } => Outcome::Done {
                value: v,
                frame: f2.drop_first(),
            },
            Outcome::Fail { error, frame: f2 } => Outcome::Fail {
                error,
                frame: f2.drop_first(),
            },
            Outcome::NoFuel { frame: f2 } => Outcome::NoFuel { frame: f2.drop_first() },
        })),
{
}


/// The fuel bound is inert: an evaluation that completes (with a value
/// or an error) within some bound has the same outcome under every
/// larger bound. Fuel is consumed only when a function body is entered,
/// so it never influences what a terminating program computes.
pub proof fn lemma_eval_fuel_monotone(
    fuel1: nat,
    fuel2: nat,
    e: SpecExpr,
    f: Seq<SpecBindings>,
)
    requires
        fuel1 <= fuel2,
        !(spec_eval(fuel1, e, f) is NoFuel),
    ensures
        spec_eval(fuel2, e, f) == spec_eval(fuel1, e, f),
    decreases fuel1, e,
{
    match e {
        SpecExpr::Literal(_) => {},
        SpecExpr::Var(_) => {},
        SpecExpr::Binary { op, lhs, rhs } => {
            lemma_eval_fuel_monotone(fuel1, fuel2, *lhs, f);
            match spec_eval(fuel1, *lhs, f) {
                Outcome::Done { value: v1, frame: f1 } => {
                    lemma_eval_fuel_monotone(fuel1, fuel2, *rhs, f1);
                },
                _ => {},
            }
        },
        SpecExpr::Let { identifier, bind_expr, in_expr } => {
            lemma_eval_fuel_monotone(fuel1, fuel2, *bind_expr, f);
            match spec_eval(fuel1, *bind_expr, f) {
                Outcome::Done { value: v, frame: f1 } => {
                    if !(find_in(f1[0], SpecIndex::Name(identifier)) is Some) {
                        lemma_eval_fuel_monotone(
                            fuel1,
                            fuel2,
                            *in_expr,
                            f1.update(0, f1[0].push((SpecIndex::Name(identifier), v))),
                        );
                    }
                },
                _ => {},
            }
        },
        SpecExpr::Cond(bs) => {
            lemma_eval_cond_fuel_monotone(fuel1, fuel2, bs, f);
        },
        SpecExpr::Invoke(ps) => {
            lemma_eval_args_fuel_monotone(fuel1, fuel2, ps, f);
            match spec_eval_args(fuel1, ps, f) {
                ArgsOutcome::Done { values, frame: f1 } => {
                    match values[0] {
                        SpecValue::Function { type_, body } => {
                            lemma_eval_fuel_monotone(
                                (fuel1 - 1) as nat,
                                (fuel2 - 1) as nat,
                                *body,
                                seq![param_bindings(values)] + f1,
                            );
                        },
                        _ => {},
                    }
                },
                _ => {},
            }
        },
    }
}

proof fn lemma_eval_cond_fuel_monotone(
    fuel1: nat,
    fuel2: nat,
    bs: Seq<SpecExpr>,
    f: Seq<SpecBindings>,
)
    requires
        fuel1 <= fuel2,
        !(spec_eval_cond(fuel1, bs, f) is NoFuel),
    ensures
        spec_eval_cond(fuel2, bs, f) == spec_eval_cond(fuel1, bs, f),
    decreases fuel1, bs,
{
    if bs.len() == 1 {
        lemma_eval_fuel_monotone(fuel1, fuel2, bs[0], f);
    } else if bs.len() >= 2 {
        lemma_eval_fuel_monotone(fuel1, fuel2, bs[0], f);
        match spec_eval(fuel1, bs[0], f) {
            Outcome::Done { value: c, frame: f1 } => match c {
                SpecValue::Bool(b) => {
                    if b {
                        lemma_eval_fuel_monotone(fuel1, fuel2, bs[1], f1);
                    } else {
                        lemma_eval_cond_fuel_monotone(fuel1, fuel2, bs.skip(2), f1);
                    }
                },
                _ => {},
            },
            _ => {},
        }
    }
}

proof fn lemma_eval_args_fuel_monotone(
    fuel1: nat,
    fuel2: nat,
    ps: Seq<SpecExpr>,
    f: Seq<SpecBindings>,
)
    requires
        fuel1 <= fuel2,
        !(spec_eval_args(fuel1, ps, f) is NoFuel),
    ensures
        spec_eval_args(fuel2, ps, f) == spec_eval_args(fuel1, ps, f),
    decreases fuel1, ps,
{
    if ps.len() != 0 {
        lemma_eval_fuel_monotone(fuel1, fuel2, ps[0], f);
        match spec_eval(fuel1, ps[0], f) {
            Outcome::Done { value: v, frame: f1 } => {
                lemma_eval_args_fuel_monotone(fuel1, fuel2, ps.drop_first(), f1);
            },
            _ => {},
        }
    }
}

/// One frame's bindings only ever grow: every binding present before is
/// still present, unchanged and in place, afterwards.
pub open spec fn extends(before: SpecBindings, after: SpecBindings) -> bool {
    before.len() <= after.len() && (forall|j: int|
        0 <= j < before.len() ==> after[j] == before[j])
}

/// How an environment chain may change under evaluation: the current
/// frame is extended append-only, and every outer frame is left exactly
/// as it was — a frame never mutates its parent.
pub open spec fn chain_evolves(before: Seq<SpecBindings>, after: Seq<SpecBindings>) -> bool {
    &&& after.len() == before.len()
    &&& extends(before[0], after[0])
    &&& forall|i: int| 1 <= i < before.len() ==> after[i] == before[i]
}

proof fn lemma_chain_evolves_trans(
    a: Seq<SpecBindings>,
    b: Seq<SpecBindings>,
    c: Seq<SpecBindings>,
)
    requires
        chain_evolves(a, b),
        chain_evolves(b, c),
    ensures
        chain_evolves(a, c),
{
}

/// Evaluation respects the environment discipline whatever its
/// outcome — value, error or fuel exhaustion: the frame chain it
/// leaves behind is the one it was given with the current frame
/// extended append-only and every outer frame untouched. In
/// particular, a failed `let` has inserted nothing beyond what its
/// bound expression itself inserted, and an invocation's positional
/// bindings never reach the caller's frame.
pub proof fn lemma_eval_preserves_outer_frames(fuel: nat, e: SpecExpr, f: Seq<SpecBindings>)
    requires
        f.len() >= 1,
    ensures
        chain_evolves(f, spec_eval(fuel, e, f).env()),
    decreases fuel, e,
{
    match e {
        SpecExpr::Literal(_) => {},
        SpecExpr::Var(_) => {},
        SpecExpr::Binary { op, lhs, rhs } => {
            lemma_eval_preserves_outer_frames(fuel, *lhs, f);
            match spec_eval(fuel, *lhs, f) {
                Outcome::Done { value: v1, frame: f1 } => {
                    lemma_eval_preserves_outer_frames(fuel, *rhs, f1);
                    lemma_chain_evolves_trans(f, f1, spec_eval(fuel, *rhs, f1).env());
                },
                _ => {},
            }
        },
        SpecExpr::Let { identifier, bind_expr, in_expr } => {
            lemma_eval_preserves_outer_frames(fuel, *bind_expr, f);
            match spec_eval(fuel, *bind_expr, f) {
                Outcome::Done { value: v, frame: f1 } => {
                    if !(find_in(f1[0], SpecIndex::Name(identifier)) is Some) {
                        let fx = f1.update(
                            0,
                            f1[0].push((SpecIndex::Name(identifier), v)),
                        );
                        assert(chain_evolves(f1, fx));
                        lemma_eval_preserves_outer_frames(fuel, *in_expr, fx);
                        lemma_chain_evolves_trans(f, f1, fx);
                        lemma_chain_evolves_trans(f, fx, spec_eval(fuel, *in_expr, fx).env());
                    }
                },
                _ => {},
            }
        },
        SpecExpr::Cond(bs) => {
            lemma_eval_cond_preserves_outer_frames(fuel, bs, f);
        },
        SpecExpr::Invoke(ps) => {
            lemma_eval_args_preserves_outer_frames(fuel, ps, f);
            match spec_eval_args(fuel, ps, f) {
                ArgsOutcome::Done { values, frame: f1 } => {
                    match values[0] {
                        SpecValue::Function { type_, body } => {
                            if fuel != 0 {
                                let child = seq![param_bindings(values)] + f1;
                                lemma_eval_preserves_outer_frames(
                                    (fuel - 1) as nat,
                                    *body,
                                    child,
                                );
                                let c2 = spec_eval((fuel - 1) as nat, *body, child).env();
                                assert(c2.drop_first() =~= f1);
                            }
                        },
                        _ => {},
                    }
                },
                _ => {},
            }
        },
    }
}

proof fn lemma_eval_cond_preserves_outer_frames(
    fuel: nat,
    bs: Seq<SpecExpr>,
    f: Seq<SpecBindings>,
)
    requires
        f.len() >= 1,
    ensures
        chain_evolves(f, spec_eval_cond(fuel, bs, f).env()),
    decreases fuel, bs,
{
    if bs.len() == 1 {
        lemma_eval_preserves_outer_frames(fuel, bs[0], f);
    } else if bs.len() >= 2 {
        lemma_eval_preserves_outer_frames(fuel, bs[0], f);
        match spec_eval(fuel, bs[0], f) {
            Outcome::Done { value: c, frame: f1 } => match c {
                SpecValue::Bool(b) => {
                    if b {
                        lemma_eval_preserves_outer_frames(fuel, bs[1], f1);
                        lemma_chain_evolves_trans(f, f1, spec_eval(fuel, bs[1], f1).env());
                    } else {
                        lemma_eval_cond_preserves_outer_frames(fuel, bs.skip(2), f1);
                        lemma_chain_evolves_trans(
                            f,
                            f1,
                            spec_eval_cond(fuel, bs.skip(2), f1).env(),
                        );
                    }
                },
                _ => {},
            },
            _ => {},
        }
    }
}

proof fn lemma_eval_args_preserves_outer_frames(
    fuel: nat,
    ps: Seq<SpecExpr>,
    f: Seq<SpecBindings>,
)
    requires
        f.len() >= 1,
    ensures
        chain_evolves(f, spec_eval_args(fuel, ps, f).env()),
    decreases fuel, ps,
{
    if ps.len() == 0 {
    } else {
        lemma_eval_preserves_outer_frames(fuel, ps[0], f);
        match spec_eval(fuel, ps[0], f) {
            Outcome::Done { value: v, frame: f1 } => {
                lemma_eval_args_preserves_outer_frames(fuel, ps.drop_first(), f1);
                lemma_chain_evolves_trans(
                    f,
                    f1,
                    spec_eval_args(fuel, ps.drop_first(), f1).env(),
                );
            },
            _ => {},
        }
    }
}

} // verus!
