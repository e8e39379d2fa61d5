use std::rc::Rc;

use exprlang::bin_op::BinaryOp;
use exprlang::error::RuntimeError;
use exprlang::expr::{
    BinaryExpr, CondExpr, Expr, Invocation, LetBinding, Variable, VariableIndex,
};
use exprlang::runtime::{Frame, Runtime};
use exprlang::value::{Function, Value};

fn int_lit(i: i64) -> Expr {
    Expr::Literal(Value::Int64(i))
}

fn bool_lit(b: bool) -> Expr {
    Expr::Literal(Value::Bool(b))
}

fn var(name: &str) -> Expr {
    Expr::Var(Variable { index: VariableIndex::Name(name.to_string()) })
}

fn param(i: usize) -> Expr {
    Expr::Var(Variable { index: VariableIndex::ParamIndex(i) })
}

fn binary(lhs: Expr, op: BinaryOp, rhs: Expr) -> Expr {
    Expr::Binary(BinaryExpr { lhs: Box::new(lhs), op, rhs: Box::new(rhs) })
}

const FUEL: u64 = 1_000;

#[test]
fn test_binary_expression() {
    let mut frame = Frame::new();
    assert_eq!(
        BinaryExpr { lhs: Box::new(int_lit(3)), op: BinaryOp::Add, rhs: Box::new(int_lit(2)) }
            .evaluate(&mut frame, FUEL)
            .unwrap()
            .unwrap()
            .as_i64()
            .unwrap(),
        5
    );
}

#[test]
fn test_let_binding() {
    let mut frame = Frame::new();
    let bind1 = LetBinding {
        identifier: "a".to_string(),
        bind_expr: Box::new(int_lit(1)),
        in_expr: Box::new(binary(int_lit(1), BinaryOp::Add, var("a"))),
    };
    assert_eq!(bind1.evaluate(&mut frame, FUEL).unwrap().unwrap().as_i64().unwrap(), 2)
}

#[test]
fn test_conditional_expression() {
    let mut frame = Frame::new();
    assert_eq!(
        CondExpr {
            inner: vec![bool_lit(false), int_lit(1), bool_lit(true), int_lit(2), int_lit(3)],
        }
        .evaluate(&mut frame, FUEL)
        .unwrap()
        .unwrap()
        .as_i64()
        .unwrap(),
        2
    );
}

#[test]
fn test_conditional_expression_lazy_evaluation() {
    // An unbound variable errors the moment it is evaluated, so a clean
    // result proves the un-taken branches never ran.
    let mut frame = Frame::new();
    let poison = var("never_bound");
    let expr = CondExpr {
        inner: vec![
            bool_lit(true),
            int_lit(1),
            bool_lit(false),
            poison,
            var("never_bound_either"),
        ],
    };
    let res = expr.evaluate(&mut frame, FUEL);
    assert_eq!(res.unwrap().unwrap().as_i64().unwrap(), 1);
    let mut other = Frame::new();
    let taken_alone = var("never_bound").evaluate(&mut other, FUEL).unwrap();
    assert!(matches!(taken_alone, Err(RuntimeError::Undefined { .. })));
}

#[test]
fn test_function() {
    let mut frame = Frame::new();
    let function = Function {
        type_: vec![],
        expr: Rc::new(binary(param(1), BinaryOp::Add, int_lit(1))),
    };
    let invocation = Invocation {
        params: vec![Expr::Literal(Value::Function(function)), int_lit(1)],
    };
    assert_eq!(invocation.evaluate(&mut frame, FUEL).unwrap().unwrap().as_i64().unwrap(), 2);
}

#[test]
fn test_recursion() {
    // fn if $1 > 10 then $1 else ($0, $1 + 1) end end, applied to 1
    let mut frame = Frame::new();
    let function = Function {
        type_: vec![],
        expr: Rc::new(Expr::Cond(CondExpr {
            inner: vec![
                binary(param(1), BinaryOp::Gt, int_lit(10)),
                param(1),
                Expr::Invoke(Invocation {
                    params: vec![param(0), binary(param(1), BinaryOp::Add, int_lit(1))],
                }),
            ],
        })),
    };
    let invocation = Invocation {
        params: vec![Expr::Literal(Value::Function(function)), int_lit(1)],
    };
    assert_eq!(invocation.evaluate(&mut frame, FUEL).unwrap().unwrap().as_i64().unwrap(), 11);
}

#[test]
fn recursion_runs_out_of_fuel() {
    // The same self-application, but the guard never turns true: the
    // evaluator reports fuel exhaustion instead of overflowing.
    let mut frame = Frame::new();
    let function = Function {
        type_: vec![],
        expr: Rc::new(Expr::Cond(CondExpr {
            inner: vec![
                binary(param(1), BinaryOp::Lt, int_lit(0)),
                param(1),
                Expr::Invoke(Invocation {
                    params: vec![param(0), binary(param(1), BinaryOp::Add, int_lit(1))],
                }),
            ],
        })),
    };
    let invocation = Invocation {
        params: vec![Expr::Literal(Value::Function(function)), int_lit(1)],
    };
    assert!(invocation.evaluate(&mut frame, 50).is_none());
}

#[test]
fn invocation_arguments_use_callers_frame() {
    // The argument expression `$1` is evaluated against the caller's
    // frame, which binds no positional slots: the invocation fails with
    // `Undefined` even though the new call frame would bind `$1`.
    let mut frame = Frame::new();
    let identity = Function { type_: vec![], expr: Rc::new(param(1)) };
    let invocation = Invocation {
        params: vec![Expr::Literal(Value::Function(identity)), param(1)],
    };
    let res = invocation.evaluate(&mut frame, FUEL).unwrap();
    assert!(matches!(
        res,
        Err(RuntimeError::Undefined { index: VariableIndex::ParamIndex(1) })
    ));
}

#[test]
fn invocation_sees_outer_bindings_through_parent() {
    // let a = 1 in (fn a end, 2) end: the body reads `a` through the
    // parent link of the call frame.
    let mut frame = Frame::new();
    let body_reads_outer = Function { type_: vec![], expr: Rc::new(var("a")) };
    let program = LetBinding {
        identifier: "a".to_string(),
        bind_expr: Box::new(int_lit(1)),
        in_expr: Box::new(Expr::Invoke(Invocation {
            params: vec![Expr::Literal(Value::Function(body_reads_outer)), int_lit(2)],
        })),
    };
    assert_eq!(program.evaluate(&mut frame, FUEL).unwrap().unwrap().as_i64().unwrap(), 1);
}

#[test]
fn rebinding_in_same_frame_is_multi_defined() {
    // let a = 1 in let a = 2 in a end end
    let mut frame = Frame::new();
    let inner = LetBinding {
        identifier: "a".to_string(),
        bind_expr: Box::new(int_lit(2)),
        in_expr: Box::new(var("a")),
    };
    let outer = LetBinding {
        identifier: "a".to_string(),
        bind_expr: Box::new(int_lit(1)),
        in_expr: Box::new(Expr::Let(inner)),
    };
    let res = outer.evaluate(&mut frame, FUEL).unwrap();
    match res {
        Err(RuntimeError::MultiDefined { identifier }) => assert_eq!(identifier, "a"),
        other => panic!("expected MultiDefined, got {:?}", other),
    }
}

#[test]
fn condition_of_wrong_type_is_a_type_error() {
    let mut frame = Frame::new();
    let expr = CondExpr { inner: vec![int_lit(1), int_lit(2), int_lit(3)] };
    let res = expr.evaluate(&mut frame, FUEL).unwrap();
    match res {
        Err(RuntimeError::TypeError { expected, current }) => {
            assert!(matches!(current, exprlang::type_::Type::Int64));
            assert_eq!(expected.len(), 1);
            assert!(matches!(expected[0], exprlang::type_::Type::Bool));
        },
        other => panic!("expected TypeError, got {:?}", other),
    }
}

#[test]
fn callee_that_is_not_a_function_is_a_type_error() {
    let mut frame = Frame::new();
    let invocation = Invocation { params: vec![int_lit(1), int_lit(2)] };
    let res = invocation.evaluate(&mut frame, FUEL).unwrap();
    match res {
        Err(RuntimeError::TypeError { expected, current }) => {
            assert!(matches!(current, exprlang::type_::Type::Int64));
            assert_eq!(expected.len(), 0);
        },
        other => panic!("expected TypeError, got {:?}", other),
    }
}

#[test]
fn runtime_runs_a_program() {
    let mut rt = Runtime::new();
    let program = binary(int_lit(20), BinaryOp::Mul, int_lit(2));
    assert_eq!(rt.run(&program, FUEL).unwrap().unwrap().as_i64().unwrap(), 40);
}

#[test]
fn let_binding_persists_in_frame() {
    // Evaluating a `let` extends the frame it ran against; the binding
    // stays for the frame's lifetime.
    let mut frame = Frame::new();
    let bind = LetBinding {
        identifier: "a".to_string(),
        bind_expr: Box::new(int_lit(7)),
        in_expr: Box::new(var("a")),
    };
    bind.evaluate(&mut frame, FUEL).unwrap().unwrap();
    let found = frame.find(&VariableIndex::Name("a".to_string())).unwrap();
    assert_eq!(found.as_i64().unwrap(), 7);
}
