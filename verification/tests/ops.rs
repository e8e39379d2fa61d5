use std::rc::Rc;

use exprlang::bin_op;
use exprlang::bin_op::BinaryOp;
use exprlang::error::RuntimeError;
use exprlang::expr::Expr;
use exprlang::type_::Type;
use exprlang::value::{Function, Value};

fn int64(i: i64) -> Value {
    Value::Int64(i)
}

fn float(x: f64) -> Value {
    Value::Float64(x.to_bits())
}

fn as_f64(v: Value) -> f64 {
    f64::from_bits(v.as_f64_bits().unwrap())
}

#[test]
fn integer_arithmetic() {
    assert_eq!(bin_op::add(&int64(3), &int64(2)).unwrap().as_i64().unwrap(), 5);
    assert_eq!(bin_op::sub(&int64(3), &int64(2)).unwrap().as_i64().unwrap(), 1);
    assert_eq!(bin_op::mul(&int64(3), &int64(2)).unwrap().as_i64().unwrap(), 6);
    assert_eq!(bin_op::div(&int64(7), &int64(2)).unwrap().as_i64().unwrap(), 3);
    assert_eq!(bin_op::mod_(&int64(7), &int64(2)).unwrap().as_i64().unwrap(), 1);
}

#[test]
fn float_arithmetic() {
    assert_eq!(as_f64(bin_op::add(&float(3.0), &float(2.0)).unwrap()), 5.0);
    assert_eq!(as_f64(bin_op::sub(&float(3.0), &float(2.0)).unwrap()), 1.0);
    assert_eq!(as_f64(bin_op::mul(&float(3.0), &float(2.0)).unwrap()), 6.0);
    assert_eq!(as_f64(bin_op::div(&float(7.0), &float(2.0)).unwrap()), 3.5);
    assert_eq!(as_f64(bin_op::mod_(&float(7.0), &float(2.0)).unwrap()), 1.0);
    assert_eq!(as_f64(bin_op::add(&float(1.5), &float(2.25)).unwrap()), 3.75);
    assert_eq!(as_f64(bin_op::div(&float(1.0), &float(0.0)).unwrap()), f64::INFINITY);
}

#[test]
fn float_comparisons() {
    assert_eq!(bin_op::gt(&float(2.0), &float(1.0)).unwrap().as_bool().unwrap(), true);
    assert_eq!(bin_op::lt(&float(2.0), &float(1.0)).unwrap().as_bool().unwrap(), false);
    assert_eq!(bin_op::ge(&float(2.0), &float(2.0)).unwrap().as_bool().unwrap(), true);
    assert_eq!(bin_op::le(&float(2.0), &float(2.5)).unwrap().as_bool().unwrap(), true);
    assert_eq!(bin_op::eq(&float(2.0), &float(2.0)).unwrap().as_bool().unwrap(), true);
    assert_eq!(bin_op::ne(&float(2.0), &float(2.5)).unwrap().as_bool().unwrap(), true);
    let nan = float(f64::NAN);
    assert_eq!(bin_op::eq(&nan, &float(f64::NAN)).unwrap().as_bool().unwrap(), false);
    assert_eq!(bin_op::ne(&nan, &float(f64::NAN)).unwrap().as_bool().unwrap(), true);
    assert_eq!(bin_op::lt(&nan, &float(1.0)).unwrap().as_bool().unwrap(), false);
    assert_eq!(bin_op::ge(&nan, &float(1.0)).unwrap().as_bool().unwrap(), false);
}

#[test]
fn integer_comparisons() {
    assert_eq!(bin_op::gt(&int64(3), &int64(2)).unwrap().as_bool().unwrap(), true);
    assert_eq!(bin_op::lt(&int64(3), &int64(2)).unwrap().as_bool().unwrap(), false);
    assert_eq!(bin_op::ge(&int64(2), &int64(2)).unwrap().as_bool().unwrap(), true);
    assert_eq!(bin_op::le(&int64(3), &int64(2)).unwrap().as_bool().unwrap(), false);
    assert_eq!(bin_op::eq(&int64(2), &int64(2)).unwrap().as_bool().unwrap(), true);
    assert_eq!(bin_op::ne(&int64(2), &int64(2)).unwrap().as_bool().unwrap(), false);
}

#[test]
fn boolean_equality_only() {
    let t = Value::Bool(true);
    let f = Value::Bool(false);
    assert_eq!(bin_op::eq(&t, &f).unwrap().as_bool().unwrap(), false);
    assert_eq!(bin_op::ne(&t, &f).unwrap().as_bool().unwrap(), true);
    let res = bin_op::add(&t, &f);
    match res {
        Err(RuntimeError::TypeError { expected, current }) => {
            assert!(matches!(current, Type::Bool));
            assert_eq!(expected.len(), 2);
            assert!(matches!(expected[0], Type::Int64));
            assert!(matches!(expected[1], Type::Float64));
        },
        other => panic!("expected TypeError, got {:?}", other),
    }
}

#[test]
fn division_by_zero_is_an_error() {
    assert!(matches!(bin_op::div(&int64(7), &int64(0)), Err(RuntimeError::DivisionByZero)));
    assert!(matches!(bin_op::mod_(&int64(7), &int64(0)), Err(RuntimeError::DivisionByZero)));
    assert!(matches!(bin_op::div(&int64(0), &int64(0)), Err(RuntimeError::DivisionByZero)));
}

#[test]
fn wrapping_integer_semantics() {
    assert_eq!(bin_op::add(&int64(i64::MAX), &int64(1)).unwrap().as_i64().unwrap(), i64::MIN);
    assert_eq!(bin_op::sub(&int64(i64::MIN), &int64(1)).unwrap().as_i64().unwrap(), i64::MAX);
    assert_eq!(bin_op::div(&int64(i64::MIN), &int64(-1)).unwrap().as_i64().unwrap(), i64::MIN);
    assert_eq!(bin_op::mod_(&int64(i64::MIN), &int64(-1)).unwrap().as_i64().unwrap(), 0);
    assert_eq!(bin_op::div(&int64(-7), &int64(2)).unwrap().as_i64().unwrap(), -3);
    assert_eq!(bin_op::mod_(&int64(-7), &int64(2)).unwrap().as_i64().unwrap(), -1);
}

#[test]
fn mixed_types_are_rejected_by_every_operator() {
    let pairs: Vec<(Value, Value)> = vec![
        (int64(1), float(1.0)),
        (float(1.0), Value::Bool(true)),
        (Value::Bool(true), int64(0)),
        (int64(1), Value::Undefined),
    ];
    let ops = vec![
        BinaryOp::Add,
        BinaryOp::Sub,
        BinaryOp::Mul,
        BinaryOp::Div,
        BinaryOp::Mod,
        BinaryOp::Eq,
        BinaryOp::Ne,
        BinaryOp::Gt,
        BinaryOp::Lt,
        BinaryOp::Ge,
        BinaryOp::Le,
    ];
    for (a, b) in &pairs {
        for op in &ops {
            let res = bin_op::apply(*op, a, b);
            match res {
                Err(RuntimeError::TypeError { expected, .. }) => {
                    assert_eq!(expected.len(), 1);
                },
                other => panic!("expected TypeError, got {:?}", other),
            }
        }
    }
}

#[test]
fn function_equality_is_unsupported() {
    let f = Value::Function(Function {
        type_: vec![],
        expr: Rc::new(Expr::Literal(Value::Int64(1))),
    });
    let g = Value::Function(Function {
        type_: vec![],
        expr: Rc::new(Expr::Literal(Value::Int64(2))),
    });
    assert!(matches!(
        bin_op::eq(&f, &g),
        Err(RuntimeError::Unsupported { operation: BinaryOp::Eq, .. })
    ));
    assert!(matches!(
        bin_op::ne(&f, &g),
        Err(RuntimeError::Unsupported { operation: BinaryOp::Ne, .. })
    ));
}

#[test]
fn undefined_equality_has_no_accepted_type() {
    let res = bin_op::eq(&Value::Undefined, &Value::Undefined);
    match res {
        Err(RuntimeError::TypeError { expected, current }) => {
            assert!(matches!(current, Type::Undefined));
            assert_eq!(expected.len(), 0);
        },
        other => panic!("expected TypeError, got {:?}", other),
    }
}

#[test]
fn value_accessors_match_variants() {
    assert_eq!(int64(3).as_i64(), Some(3));
    assert_eq!(int64(3).as_bool(), None);
    assert_eq!(int64(3).as_f64_bits(), None);
    assert_eq!(float(1.5).as_f64_bits(), Some(1.5f64.to_bits()));
    assert_eq!(Value::Bool(true).as_bool(), Some(true));
    assert!(Value::Undefined.as_function().is_none());
    assert!(matches!(int64(3).type_(), Type::Int64));
    assert!(matches!(float(0.0).type_(), Type::Float64));
    assert!(matches!(Value::Undefined.type_(), Type::Undefined));
}
