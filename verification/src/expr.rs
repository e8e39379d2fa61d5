//! The abstract syntax tree: literals, binary expressions, let-bindings,
//! variable references, multi-branch conditionals and function
//! invocations, together with their mathematical model and the
//! well-formedness conditions the evaluator relies on.

use vstd::prelude::*;

use crate::bin_op::BinaryOp;
use crate::error::RuntimeError;
use crate::runtime::{spec_bindings, wf_chain, Frame};
use crate::semantics::{
    eval_post, param_bindings, spec_eval, spec_eval_args, spec_eval_cond, ArgsOutcome,
};
use crate::value::{clone_rc_expr, clone_value, spec_value, spec_value_seq, wf_value, SpecValue, Value};

verus! {

/// A lookup key of the environment: either a lexical name or a
/// positional parameter slot. Inside a function body, slot 0 holds the
/// invoked function's own value and slots 1.. hold the arguments.
#[derive(Debug)]
pub enum VariableIndex {
    Name(String),
    ParamIndex(usize),
}

/// Mathematical model of a `VariableIndex`.
pub enum SpecIndex {
    Name(Seq<char>),
    ParamIndex(usize),
}

impl View for VariableIndex {
    type V = SpecIndex;

    open spec fn view(&self) -> SpecIndex {
        match self {
            VariableIndex::Name(s) => SpecIndex::Name(s@),
            VariableIndex::ParamIndex(i) => SpecIndex::ParamIndex(*i),
        }
    }
}

impl Clone for VariableIndex {
    fn clone(&self) -> (res: Self)
        ensures
            res@ == self@,
    {
        match self {
            VariableIndex::Name(s) => VariableIndex::Name(s.clone()),
            VariableIndex::ParamIndex(i) => VariableIndex::ParamIndex(*i),
        }
    }
}

/// Decides equality of two lookup keys; names and positional indices
/// form a single unified key space and never collide with each other.
pub fn eq_index(a: &VariableIndex, b: &VariableIndex) -> (r: bool)
    ensures
        r == (a@ == b@),
{
    match (a, b) {
        (VariableIndex::Name(x), VariableIndex::Name(y)) => x.eq(y),
        (VariableIndex::ParamIndex(x), VariableIndex::ParamIndex(y)) => x == y,
        _ => false,
    }
}

/// A binary operator application; the operands are evaluated left first.
#[derive(Debug)]
pub struct BinaryExpr {
    pub lhs: Box<Expr>,
    pub op: BinaryOp,
    pub rhs: Box<Expr>,
}

/// An ordered sequence of `(condition, result)` branch pairs followed by
/// exactly one trailing default expression (odd total count).
#[derive(Debug)]
pub struct CondExpr {
    pub inner: Vec<Expr>,
}

/// Binds the value of `bind_expr` under `identifier` in the current
/// frame, then evaluates `in_expr` against that same extended frame.
#[derive(Debug)]
pub struct LetBinding {
    pub identifier: String,
    pub bind_expr: Box<Expr>,
    pub in_expr: Box<Expr>,
}

/// A variable reference, resolved through the chained environment.
#[derive(Debug)]
pub struct Variable {
    pub index: VariableIndex,
}

/// A function invocation: `params[0]` is the callee expression and the
/// remaining elements are the arguments, all evaluated against the
/// caller's frame.
#[derive(Debug)]
pub struct Invocation {
    pub params: Vec<Expr>,
}

/// An expression of the language.
#[derive(Debug)]
pub enum Expr {
    Literal(Value),
    Binary(BinaryExpr),
    Cond(CondExpr),
    Let(LetBinding),
    Var(Variable),
    Invoke(Invocation),
}

/// Mathematical model of an `Expr`.
pub enum SpecExpr {
    Literal(SpecValue),
    Binary { op: BinaryOp, lhs: Box<SpecExpr>, rhs: Box<SpecExpr> },
    Cond(Seq<SpecExpr>),
    Let { identifier: Seq<char>, bind_expr: Box<SpecExpr>, in_expr: Box<SpecExpr> },
    Var(SpecIndex),
    Invoke(Seq<SpecExpr>),
}

pub open spec fn spec_expr(e: Expr) -> SpecExpr
    decreases e,
{
    match e {
        Expr::Literal(v) => SpecExpr::Literal(spec_value(v)),
        Expr::Binary(b) => SpecExpr::Binary {
            op: b.op,
            lhs: Box::new(spec_expr(*b.lhs)),
            rhs: Box::new(spec_expr(*b.rhs)),
        },
        Expr::Cond(c) => SpecExpr::Cond(spec_expr_seq(c.inner@)),
        Expr::Let(l) => SpecExpr::Let {
            identifier: l.identifier@,
            bind_expr: Box::new(spec_expr(*l.bind_expr)),
            in_expr: Box::new(spec_expr(*l.in_expr)),
        },
        Expr::Var(v) => SpecExpr::Var(v.index@),
        Expr::Invoke(iv) => SpecExpr::Invoke(spec_expr_seq(iv.params@)),
    }
}

pub open spec fn spec_expr_seq(es: Seq<Expr>) -> Seq<SpecExpr>
    decreases es,
{
    if es.len() == 0 {
        Seq::empty()
    } else {
        seq![spec_expr(es[0])] + spec_expr_seq(es.drop_first())
    }
}

pub proof fn lemma_spec_expr_seq_len(es: Seq<Expr>)
    ensures
        spec_expr_seq(es).len() == es.len(),
    decreases es,
{
    if es.len() != 0 {
        lemma_spec_expr_seq_len(es.drop_first());
    }
}

pub proof fn lemma_spec_expr_seq_index(es: Seq<Expr>, i: int)
    requires
        0 <= i < es.len(),
    ensures
        spec_expr_seq(es).len() == es.len(),
        spec_expr_seq(es)[i] == spec_expr(es[i]),
    decreases es,
{
    lemma_spec_expr_seq_len(es);
    if i > 0 {
        lemma_spec_expr_seq_index(es.drop_first(), i - 1);
    }
}

impl View for Expr {
    type V = SpecExpr;

    open spec fn view(&self) -> SpecExpr {
        spec_expr(*self)
    }
}

impl View for BinaryExpr {
    type V = SpecExpr;

    open spec fn view(&self) -> SpecExpr {
        SpecExpr::Binary {
            op: self.op,
            lhs: Box::new(spec_expr(*self.lhs)),
            rhs: Box::new(spec_expr(*self.rhs)),
        }
    }
}

impl View for CondExpr {
    type V = SpecExpr;

    open spec fn view(&self) -> SpecExpr {
        SpecExpr::Cond(spec_expr_seq(self.inner@))
    }
}

impl View for LetBinding {
    type V = SpecExpr;

    open spec fn view(&self) -> SpecExpr {
        SpecExpr::Let {
            identifier: self.identifier@,
            bind_expr: Box::new(spec_expr(*self.bind_expr)),
            in_expr: Box::new(spec_expr(*self.in_expr)),
        }
    }
}

impl View for Variable {
    type V = SpecExpr;

    open spec fn view(&self) -> SpecExpr {
        SpecExpr::Var(self.index@)
    }
}

impl View for Invocation {
    type V = SpecExpr;

    open spec fn view(&self) -> SpecExpr {
        SpecExpr::Invoke(spec_expr_seq(self.params@))
    }
}

/// Structural well-formedness: every conditional holds an odd number of
/// branch expressions (pairs plus one default) and every invocation
/// holds at least the callee. The evaluator is specified on well-formed
/// expressions only.
pub open spec fn wf_expr(e: SpecExpr) -> bool
    decreases e,
{
    match e {
        SpecExpr::Literal(v) => wf_value(v),
        SpecExpr::Binary { lhs, rhs, .. } => wf_expr(*lhs) && wf_expr(*rhs),
        SpecExpr::Cond(bs) => bs.len() % 2 == 1 && wf_expr_seq(bs),
        SpecExpr::Let { bind_expr, in_expr, .. } => wf_expr(*bind_expr) && wf_expr(*in_expr),
        SpecExpr::Var(_) => true,
        SpecExpr::Invoke(ps) => ps.len() >= 1 && wf_expr_seq(ps),
    }
}

pub open spec fn wf_expr_seq(es: Seq<SpecExpr>) -> bool
    decreases es,
{
    es.len() == 0 || (wf_expr(es[0]) && wf_expr_seq(es.drop_first()))
}

pub proof fn lemma_wf_expr_seq_index(es: Seq<SpecExpr>, i: int)
    requires
        wf_expr_seq(es),
        0 <= i < es.len(),
    ensures
        wf_expr(es[i]),
    decreases es,
{
    if i > 0 {
        lemma_wf_expr_seq_index(es.drop_first(), i - 1);
    }
}

pub proof fn lemma_wf_expr_seq_skip(es: Seq<SpecExpr>, k: int)
    requires
        wf_expr_seq(es),
        0 <= k <= es.len(),
    ensures
        wf_expr_seq(es.skip(k)),
    decreases k,
{
    if k > 0 {
        assert(es.len() > 0);
        assert(es.drop_first().skip(k - 1) =~= es.skip(k));
        lemma_wf_expr_seq_skip(es.drop_first(), k - 1);
    } else {
        assert(es.skip(0) =~= es);
    }
}

impl Expr {

    /// Decides at run time whether this expression is well formed: the
    /// condition the evaluator's contract asks of its input.
    pub fn is_well_formed(&self) -> (r: bool)
        ensures
            r == wf_expr(self@),
        decreases *self,
    {
        match self {
            Expr::Literal(v) => match v {
                Value::Function(f) => {
                    proof {
                        assert(decreases_to!(*self => *f.expr));
                    }
                    let body: &Expr = &f.expr;
                    let okb = body.is_well_formed();
                    proof {
                        assert(spec_value(*v) == SpecValue::Function {
                            type_: crate::type_::spec_type_seq(f.type_@),
                            body: Box::new(spec_expr(*f.expr)),
                        });
                        assert(wf_value(spec_value(*v)) == wf_expr(spec_expr(*f.expr)));
                    }
                    okb
                },
                _ => {
                    proof {
                        let ghost sv = spec_value(*v);
                        assert(!(sv is Function));
                        assert(wf_value(sv));
                    }
                    true
                },
            },
            Expr::Binary(b) => {
                let okl = b.lhs.is_well_formed();
                if okl {
                    b.rhs.is_well_formed()
                } else {
                    false
                }
            },
            Expr::Cond(c) => {
                proof {
                    lemma_spec_expr_seq_len(c.inner@);
                    assert(decreases_to!(*self => c.inner@));
                }
                if c.inner.len() % 2 == 1 {
                    all_well_formed(&c.inner)
                } else {
                    false
                }
            },
            Expr::Let(l) => {
                let okb = l.bind_expr.is_well_formed();
                if okb {
                    l.in_expr.is_well_formed()
                } else {
                    false
                }
            },
            Expr::Var(_) => true,
            Expr::Invoke(iv) => {
                proof {
                    lemma_spec_expr_seq_len(iv.params@);
                    assert(decreases_to!(*self => iv.params@));
                }
                if iv.params.len() >= 1 {
                    all_well_formed(&iv.params)
                } else {
                    false
                }
            },
        }
    }

    /// Evaluates this expression against `frame`, with `fuel` bounding
    /// the depth of function invocations. The result realises the
    /// operational semantics exactly: `None` is fuel exhaustion, and on
    /// completion the value, the error and the final environment are the
    /// ones `spec_eval` gives.
    pub fn evaluate(&self, frame: &mut Frame, fuel: u64) -> (r: Option<
        Result<Value, RuntimeError>,
    >)
        requires
            wf_expr(self@),
            wf_chain(old(frame)@),
        ensures
            eval_post(spec_eval(fuel as nat, self@, old(frame)@), r, final(frame)@),
            final(frame)@.len() == old(frame)@.len(),
            wf_chain(final(frame)@),
            (match r {
                Some(Ok(v)) => wf_value(v@),
                _ => true,
            }),
        decreases fuel, *self,
    {
        match self {
            Expr::Literal(v) => Some(Ok(clone_value(v))),
            Expr::Binary(b) => b.evaluate(frame, fuel),
            Expr::Cond(c) => c.evaluate(frame, fuel),
            Expr::Let(l) => l.evaluate(frame, fuel),
            Expr::Var(v) => v.evaluate(frame, fuel),
            Expr::Invoke(iv) => iv.evaluate(frame, fuel),
        }
    }
}

impl BinaryExpr {
    /// Evaluates the left operand, then the right, against the same
    /// threaded frame, then applies the operator to the two values.
    pub fn evaluate(&self, frame: &mut Frame, fuel: u64) -> (r: Option<
        Result<Value, RuntimeError>,
    >)
        requires
            wf_expr(self@),
            wf_chain(old(frame)@),
        ensures
            eval_post(spec_eval(fuel as nat, self@, old(frame)@), r, final(frame)@),
            final(frame)@.len() == old(frame)@.len(),
            wf_chain(final(frame)@),
            (match r {
                Some(Ok(v)) => wf_value(v@),
                _ => true,
            }),
        decreases fuel, *self,
    {
        match self.lhs.evaluate(frame, fuel) {
            None => None,
            Some(Err(e)) => Some(Err(e)),
            Some(Ok(v1)) => match self.rhs.evaluate(frame, fuel) {
                None => None,
                Some(Err(e)) => Some(Err(e)),
                Some(Ok(v2)) => {
                    proof {
                        crate::bin_op::lemma_apply_wf(self.op, v1@, v2@);
                    }
                    match crate::bin_op::apply(self.op, &v1, &v2) {
                        Ok(v) => Some(Ok(v)),
                        Err(e) => Some(Err(e)),
                    }
                },
            },
        }
    }
}

impl Variable {
    /// Resolves the reference through the chained environment; absence
    /// is the `Undefined` error carrying the index looked for.
    pub fn evaluate(&self, frame: &mut Frame, fuel: u64) -> (r: Option<
        Result<Value, RuntimeError>,
    >)
        requires
            wf_expr(self@),
            wf_chain(old(frame)@),
        ensures
            eval_post(spec_eval(fuel as nat, self@, old(frame)@), r, final(frame)@),
            final(frame)@.len() == old(frame)@.len(),
            wf_chain(final(frame)@),
            (match r {
                Some(Ok(v)) => wf_value(v@),
                _ => true,
            }),
        decreases fuel, *self,
    {
        proof {
            if crate::runtime::lookup(frame@, self.index@) is Some {
                crate::runtime::lemma_lookup_wf(frame@, self.index@);
            }
        }
        match frame.find(&self.index) {
            Some(v) => Some(Ok(v)),
            None => Some(Err(RuntimeError::Undefined { index: self.index.clone() })),
        }
    }
}

impl LetBinding {
    /// Evaluates the bound expression, inserts its value into the same
    /// frame, and evaluates the body against that extended frame; a
    /// collision with an existing binding of the same frame is the
    /// `MultiDefined` error, and the body is then never evaluated.
    pub fn evaluate(&self, frame: &mut Frame, fuel: u64) -> (r: Option<
        Result<Value, RuntimeError>,
    >)
        requires
            wf_expr(self@),
            wf_chain(old(frame)@),
        ensures
            eval_post(spec_eval(fuel as nat, self@, old(frame)@), r, final(frame)@),
            final(frame)@.len() == old(frame)@.len(),
            wf_chain(final(frame)@),
            (match r {
                Some(Ok(v)) => wf_value(v@),
                _ => true,
            }),
        decreases fuel, *self,
    {
        match self.bind_expr.evaluate(frame, fuel) {
            None => None,
            Some(Err(e)) => Some(Err(e)),
            Some(Ok(v)) => {
                let ghost f1 = frame@;
                let ghost gv = v@;
                let inserted = frame.insert_variable(
                    VariableIndex::Name(self.identifier.clone()),
                    v,
                );
                if inserted {
                    proof {
                        assert(frame@ == f1.update(
                            0,
                            f1[0].push((SpecIndex::Name(self.identifier@), gv)),
                        ));
                        assert(f1.len() >= 1);
                        assert forall|i: int| 0 <= i < frame@.len() implies crate::runtime::wf_bindings(
                            #[trigger] frame@[i],
                        ) by {
                            if i == 0 {
                                let nbs = frame@[0];
                                assert forall|j: int| 0 <= j < nbs.len() implies wf_value(
                                    #[trigger] nbs[j].1,
                                ) by {
                                    if j < f1[0].len() {
                                        assert(nbs[j] == f1[0][j]);
                                    } else {
                                        assert(nbs[j] == (SpecIndex::Name(self.identifier@), gv));
                                    }
                                }
                            }
                        }
                    }
                    self.in_expr.evaluate(frame, fuel)
                } else {
                    Some(Err(RuntimeError::MultiDefined { identifier: self.identifier.clone() }))
                }
            },
        }
    }
}

impl CondExpr {
    /// Scans the `(condition, result)` pairs strictly in order; the
    /// first true condition selects its result, later branches and the
    /// default are never evaluated.
    pub fn evaluate(&self, frame: &mut Frame, fuel: u64) -> (r: Option<
        Result<Value, RuntimeError>,
    >)
        requires
            wf_expr(self@),
            wf_chain(old(frame)@),
        ensures
            eval_post(spec_eval(fuel as nat, self@, old(frame)@), r, final(frame)@),
            final(frame)@.len() == old(frame)@.len(),
            wf_chain(final(frame)@),
            (match r {
                Some(Ok(v)) => wf_value(v@),
                _ => true,
            }),
        decreases fuel, *self,
    {
        proof {
            lemma_spec_expr_seq_len(self.inner@);
            assert(spec_expr_seq(self.inner@).skip(0) =~= spec_expr_seq(self.inner@));
            assert(self.inner@.skip(0) =~= self.inner@);
            assert(decreases_to!(*self => self.inner@));
        }
        evaluate_cond(&self.inner, 0, frame, fuel)
    }
}

/// Evaluates the branch suffix of a conditional that starts at `start`.
fn evaluate_cond(branches: &Vec<Expr>, start: usize, frame: &mut Frame, fuel: u64) -> (r: Option<
    Result<Value, RuntimeError>,
>)
    requires
        start < branches@.len(),
        (branches@.len() - start) % 2 == 1,
        wf_expr_seq(spec_expr_seq(branches@).skip(start as int)),
        wf_chain(old(frame)@),
    ensures
        eval_post(
            spec_eval_cond(
                fuel as nat,
                spec_expr_seq(branches@).skip(start as int),
                old(frame)@,
            ),
            r,
            final(frame)@,
        ),
        final(frame)@.len() == old(frame)@.len(),
        wf_chain(final(frame)@),
        (match r {
            Some(Ok(v)) => wf_value(v@),
            _ => true,
        }),
    decreases fuel, branches@.skip(start as int),
{
    let ghost gs = spec_expr_seq(branches@).skip(start as int);
    proof {
        lemma_spec_expr_seq_len(branches@);
        assert(gs.len() == branches@.len() - start);
        lemma_spec_expr_seq_index(branches@, start as int);
        assert(gs[0] == spec_expr(branches@[start as int]));
        lemma_wf_expr_seq_index(gs, 0);
        assert(decreases_to!(branches@.skip(start as int) => branches@.skip(start as int)[0]));
        assert(branches@.skip(start as int)[0] == branches@[start as int]);
    }
    let n = branches.len();
    if start == n - 1 {
        let e = &branches[start];
        e.evaluate(frame, fuel)
    } else {
        proof {
            lemma_spec_expr_seq_index(branches@, start as int + 1);
            assert(gs[1] == spec_expr(branches@[start as int + 1]));
            lemma_wf_expr_seq_index(gs, 1);
        }
        let c = &branches[start];
        match c.evaluate(frame, fuel) {
            None => None,
            Some(Err(e)) => Some(Err(e)),
            Some(Ok(v)) => match v {
                Value::Bool(b) => {
                    if b {
                        proof {
                            assert(branches@.skip(start as int)[1] == branches@[start as int + 1]);
                            assert(decreases_to!(branches@.skip(start as int) => branches@.skip(
                                start as int,
                            )[1]));
                        }
                        let e = &branches[start + 1];
                        e.evaluate(frame, fuel)
                    } else {
                        proof {
                            assert(branches@.skip(start as int).subrange(
                                2,
                                branches@.skip(start as int).len() as int,
                            ) =~= branches@.skip(start as int + 2));
                            assert(gs.skip(2) =~= spec_expr_seq(branches@).skip(start as int + 2));
                            lemma_wf_expr_seq_skip(gs, 2);
                        }
                        evaluate_cond(branches, start + 2, frame, fuel)
                    }
                },
                _ => {
                    let t = v.type_();
                    Some(
                        Err(
                            RuntimeError::TypeError {
                                current: t,
                                expected: crate::bin_op::expected_only(crate::type_::Type::Bool),
                            },
                        ),
                    )
                },
            },
        }
    }
}

impl Invocation {
    /// Evaluates every element of `params`, the callee included,
    /// against the caller's frame; binds the values to positional slots
    /// of a fresh child frame chained to the caller; and evaluates the
    /// function body against that child frame.
    pub fn evaluate(&self, frame: &mut Frame, fuel: u64) -> (r: Option<
        Result<Value, RuntimeError>,
    >)
        requires
            wf_expr(self@),
            wf_chain(old(frame)@),
        ensures
            eval_post(spec_eval(fuel as nat, self@, old(frame)@), r, final(frame)@),
            final(frame)@.len() == old(frame)@.len(),
            wf_chain(final(frame)@),
            (match r {
                Some(Ok(v)) => wf_value(v@),
                _ => true,
            }),
        decreases fuel, *self,
    {
        let ghost gs = spec_expr_seq(self.params@);
        proof {
            lemma_spec_expr_seq_len(self.params@);
            assert(gs.skip(0) =~= gs);
            assert(self.params@.skip(0) =~= self.params@);
            assert(decreases_to!(*self => self.params@));
        }
        match evaluate_args(&self.params, 0, frame, fuel) {
            None => None,
            Some(Err(e)) => Some(Err(e)),
            Some(Ok(vals)) => {
                let ghost f1 = frame@;
                let ghost gvals = spec_value_seq(vals@);
                match &vals[0] {
                    Value::Function(g) => {
                        if fuel == 0 {
                            return None;
                        }
                        let body = clone_rc_expr(&g.expr);
                        let n = vals.len();
                        let mut child_vars: Vec<(VariableIndex, Value)> = Vec::new();
                        let mut i: usize = 0;
                        while i < n
                            invariant
                                n == vals@.len(),
                                i <= n,
                                child_vars@.len() == i,
                                forall|j: int|
                                    0 <= j < i ==> (#[trigger] child_vars@[j]).0@
                                        == SpecIndex::ParamIndex(j as usize) && child_vars@[j].1@
                                        == vals@[j]@,
                            decreases n - i,
                        {
                            child_vars.push((VariableIndex::ParamIndex(i), clone_value(&vals[i])));
                            i = i + 1;
                        }
                        proof {
                            assert(spec_bindings(child_vars@) =~= param_bindings(gvals));
                        }
                        let mut caller = Frame::new();
                        core::mem::swap(frame, &mut caller);
                        let mut child = Frame {
                            variables: child_vars,
                            parent: Some(Box::new(caller)),
                        };
                        proof {
                            assert(child@ =~= seq![param_bindings(gvals)] + f1);
                            assert(crate::runtime::wf_bindings(param_bindings(gvals)));
                            assert forall|k: int| 0 <= k < child@.len() implies crate::runtime::wf_bindings(
                                #[trigger] child@[k],
                            ) by {
                                if k > 0 {
                                    assert(child@[k] == f1[k - 1]);
                                }
                            }
                            assert(vals@[0]@ == gvals[0]);
                            assert(wf_value(gvals[0]));
                        }
                        let rb = body.evaluate(&mut child, fuel - 1);
                        let ghost childf = child@;
                        match child.parent {
                            Some(bp) => {
                                proof {
                                    assert(childf =~= seq![spec_bindings(child.variables@)]
                                        + crate::runtime::frame_chain(*bp));
                                    assert(childf.drop_first() =~= crate::runtime::frame_chain(
                                        *bp,
                                    ));
                                }
                                *frame = *bp;
                            },
                            None => {
                                proof {
                                    assert(childf =~= seq![spec_bindings(child.variables@)]);
                                    assert(false);
                                }
                            },
                        }
                        proof {
                            assert forall|k: int| 0 <= k < childf.drop_first().len() implies crate::runtime::wf_bindings(
                                #[trigger] childf.drop_first()[k],
                            ) by {
                                assert(childf.drop_first()[k] == childf[k + 1]);
                            }
                        }
                        match rb {
                            None => None,
                            Some(Err(e)) => Some(Err(e)),
                            Some(Ok(v)) => Some(Ok(v)),
                        }
                    },
                    _ => {
                        let t = vals[0].type_();
                        Some(Err(RuntimeError::TypeError { current: t, expected: Vec::new() }))
                    },
                }
            },
        }
    }
}

/// Evaluates the suffix of a parameter list that starts at `start`,
/// left to right against one threaded frame, collecting the values.
fn evaluate_args(params: &Vec<Expr>, start: usize, frame: &mut Frame, fuel: u64) -> (r: Option<
    Result<Vec<Value>, RuntimeError>,
>)
    requires
        start <= params@.len(),
        wf_expr_seq(spec_expr_seq(params@).skip(start as int)),
        wf_chain(old(frame)@),
    ensures
        ({
            let o = spec_eval_args(
                fuel as nat,
                spec_expr_seq(params@).skip(start as int),
                old(frame)@,
            );
            match o {
                ArgsOutcome::Done { values, frame: fa } => r matches Some(Ok(vs))
                    && spec_value_seq(vs@) == values && vs@.len() == params@.len() - start
                    && final(frame)@ == fa && (forall|i: int|
                    0 <= i < vs@.len() ==> wf_value(#[trigger] vs@[i]@)),
                ArgsOutcome::Fail { error, frame: fa } => r matches Some(Err(e)) && e@ == error
                    && final(frame)@ == fa,
                ArgsOutcome::NoFuel { frame: fa } => r is None && final(frame)@ == fa,
            }
        }),
        final(frame)@.len() == old(frame)@.len(),
        wf_chain(final(frame)@),
    decreases fuel, params@.skip(start as int),
{
    let ghost gs = spec_expr_seq(params@).skip(start as int);
    proof {
        lemma_spec_expr_seq_len(params@);
        assert(gs.len() == params@.len() - start);
    }
    if start == params.len() {
        let empty_vals: Vec<Value> = Vec::new();
        proof {
            assert(spec_value_seq(empty_vals@) =~= Seq::<SpecValue>::empty());
        }
        return Some(Ok(empty_vals));
    }
    proof {
        lemma_spec_expr_seq_index(params@, start as int);
        assert(gs[0] == spec_expr(params@[start as int]));
        lemma_wf_expr_seq_index(gs, 0);
        assert(params@.skip(start as int)[0] == params@[start as int]);
        assert(decreases_to!(params@.skip(start as int) => params@.skip(start as int)[0]));
    }
    let e = &params[start];
    match e.evaluate(frame, fuel) {
        None => None,
        Some(Err(err)) => Some(Err(err)),
        Some(Ok(v)) => {
            proof {
                assert(params@.skip(start as int).subrange(
                    1,
                    params@.skip(start as int).len() as int,
                ) =~= params@.skip(start as int + 1));
                assert(gs.drop_first() =~= spec_expr_seq(params@).skip(start as int + 1));
            }
            match evaluate_args(params, start + 1, frame, fuel) {
                None => None,
                Some(Err(err)) => Some(Err(err)),
                Some(Ok(mut rest)) => {
                    let ghost grest = rest@;
                    let ghost gv = v@;
                    rest.insert(0, v);
                    proof {
                        assert(spec_value_seq(rest@) =~= seq![gv] + spec_value_seq(grest));
                    }
                    Some(Ok(rest))
                },
            }
        },
    }
}

pub proof fn lemma_wf_seq_from_forall(es: Seq<SpecExpr>)
    requires
        forall|i: int| 0 <= i < es.len() ==> wf_expr(#[trigger] es[i]),
    ensures
        wf_expr_seq(es),
    decreases es,
{
    if es.len() != 0 {
        assert(forall|i: int|
            0 <= i < es.drop_first().len() ==> wf_expr(#[trigger] es.drop_first()[i]));
        lemma_wf_seq_from_forall(es.drop_first());
    }
}

/// Decides at run time whether every expression of the list is well
/// formed.
fn all_well_formed(es: &Vec<Expr>) -> (r: bool)
    ensures
        r == wf_expr_seq(spec_expr_seq(es@)),
    decreases es@,
{
    let ghost gs = spec_expr_seq(es@);
    proof {
        lemma_spec_expr_seq_len(es@);
    }
    let n = es.len();
    let mut i: usize = 0;
    while i < n
        invariant
            n == es@.len(),
            i <= n,
            gs == spec_expr_seq(es@),
            gs.len() == n,
            forall|j: int| 0 <= j < i ==> wf_expr(#[trigger] gs[j]),
        decreases n - i,
    {
        proof {
            lemma_spec_expr_seq_index(es@, i as int);
            assert(decreases_to!(es@ => es@[i as int]));
        }
        let e = &es[i];
        let ok = e.is_well_formed();
        if !ok {
            proof {
                lemma_wf_expr_seq_not(gs, i as int);
            }
            return false;
        }
        i = i + 1;
    }
    proof {
        lemma_wf_seq_from_forall(gs);
    }
    true
}

proof fn lemma_wf_expr_seq_not(es: Seq<SpecExpr>, i: int)
    requires
        0 <= i < es.len(),
        !wf_expr(es[i]),
    ensures
        !wf_expr_seq(es),
{
    if wf_expr_seq(es) {
        lemma_wf_expr_seq_index(es, i);
    }
}

} // verus!
