use exprlang::error::{Error, RuntimeError};
use exprlang::parser::parse;
use exprlang::runtime::Runtime;
use exprlang::value::Value;

const FUEL: u64 = 1_000;

fn run(text: &str) -> Result<Value, RuntimeError> {
    let expr = parse(text).unwrap();
    assert!(expr.is_well_formed());
    let mut rt = Runtime::new();
    rt.run(&expr, FUEL).unwrap()
}

fn run_i64(text: &str) -> i64 {
    run(text).unwrap().as_i64().unwrap()
}

fn run_f64(text: &str) -> f64 {
    f64::from_bits(run(text).unwrap().as_f64_bits().unwrap())
}

fn run_bool(text: &str) -> bool {
    run(text).unwrap().as_bool().unwrap()
}

#[test]
fn parses_integer_literals() {
    assert_eq!(run_i64("42"), 42);
    assert_eq!(run_i64("9223372036854775807"), i64::MAX);
}

#[test]
fn parses_float_literals() {
    assert_eq!(run_f64("3.5"), 3.5);
    assert_eq!(run_f64("0.1"), 0.1);
    assert_eq!(run_f64("2.5 + 0.25"), 2.75);
}

#[test]
fn multiplication_binds_tighter_than_addition() {
    assert_eq!(run_i64("1 + 2 * 3"), 7);
    assert_eq!(run_i64("2 * 3 + 1"), 7);
}

#[test]
fn relational_binds_tighter_than_equality() {
    assert_eq!(run_bool("1 + 1 == 4 / 2"), true);
    assert_eq!(run_bool("3 > 2 == 1 < 2"), true);
}

#[test]
fn operators_are_left_associative() {
    assert_eq!(run_i64("10 - 3 - 4"), 3);
    assert_eq!(run_i64("100 / 10 / 5"), 2);
    assert_eq!(run_i64("10 % 7 % 2"), 1);
}

#[test]
fn parses_let_binding() {
    assert_eq!(run_i64("let a = 1 in 1 + a end"), 2);
    assert_eq!(run_i64("let a = 2 in let b = 3 in a * b end end"), 6);
}

#[test]
fn parses_conditionals() {
    assert_eq!(run_i64("if false then 1 elif true then 2 else 3 end"), 2);
    assert_eq!(run_i64("if false then 1 else 3 end"), 3);
    assert_eq!(run_i64("if 2 > 1 then 10 else 20 end"), 10);
}

#[test]
fn parses_booleans() {
    assert_eq!(run_bool("true"), true);
    assert_eq!(run_bool("true != false"), true);
}

#[test]
fn parses_invocation_and_parameters() {
    assert_eq!(run_i64("(fn $1 + 1 end, 41)"), 42);
    assert_eq!(run_i64("let a = 5 in (fn $1 * $2 end, a, 4) end"), 20);
}

#[test]
fn parses_recursive_program() {
    assert_eq!(run_i64("(fn if $1 > 10 then $1 else ($0, $1 + 1) end end, 1)"), 11);
}

#[test]
fn division_by_zero_from_source_text() {
    assert!(matches!(run("7 / 0"), Err(RuntimeError::DivisionByZero)));
    assert!(matches!(run("7 % 0"), Err(RuntimeError::DivisionByZero)));
}

#[test]
fn unbound_name_from_source_text() {
    assert!(matches!(run("nowhere"), Err(RuntimeError::Undefined { .. })));
}

#[test]
fn rejects_malformed_input() {
    assert!(matches!(parse(""), Err(Error::ParseError())));
    assert!(matches!(parse("1 +"), Err(Error::ParseError())));
    assert!(matches!(parse("let a = in 1 end"), Err(Error::ParseError())));
    assert!(matches!(parse("if true then 1 end"), Err(Error::ParseError())));
    assert!(matches!(parse("@"), Err(Error::ParseError())));
    assert!(matches!(parse("1 2"), Err(Error::ParseError())));
    assert!(matches!(parse("!"), Err(Error::ParseError())));
    assert!(matches!(parse("$"), Err(Error::ParseError())));
    assert!(matches!(parse("9223372036854775808"), Err(Error::ParseError())));
}

#[test]
fn float_division_follows_ieee() {
    assert_eq!(run_f64("7.0 / 2.0"), 3.5);
    assert_eq!(run_f64("1.0 / 0.0"), f64::INFINITY);
    assert!(run_f64("0.0 / 0.0").is_nan());
}

#[test]
fn whitespace_is_insignificant() {
    assert_eq!(run_i64("  1\n+\t2  "), 3);
}
