use exprlang::expr::VariableIndex;
use exprlang::runtime::Frame;
use exprlang::value::Value;

fn name(s: &str) -> VariableIndex {
    VariableIndex::Name(s.to_string())
}

#[test]
fn insert_is_collision_checked() {
    let mut frame = Frame::new();
    assert!(frame.insert_variable(name("a"), Value::Int64(1)));
    assert!(!frame.insert_variable(name("a"), Value::Int64(2)));
    assert_eq!(frame.find(&name("a")).unwrap().as_i64().unwrap(), 1);
}

#[test]
fn lookup_walks_to_the_parent() {
    let mut root = Frame::new();
    assert!(root.insert_variable(name("outer"), Value::Int64(10)));
    let child = Frame::from_parent(root);
    assert_eq!(child.find(&name("outer")).unwrap().as_i64().unwrap(), 10);
    assert!(child.find(&name("inner")).is_none());
}

#[test]
fn child_binding_shadows_parent() {
    let mut root = Frame::new();
    assert!(root.insert_variable(name("x"), Value::Int64(1)));
    let mut child = Frame::from_parent(root);
    assert!(child.insert_variable(name("x"), Value::Int64(2)));
    assert_eq!(child.find(&name("x")).unwrap().as_i64().unwrap(), 2);
}

#[test]
fn names_and_positions_are_distinct_keys() {
    let mut frame = Frame::new();
    assert!(frame.insert_variable(name("0"), Value::Int64(1)));
    assert!(frame.insert_variable(VariableIndex::ParamIndex(0), Value::Int64(2)));
    assert_eq!(frame.find(&name("0")).unwrap().as_i64().unwrap(), 1);
    assert_eq!(frame.find(&VariableIndex::ParamIndex(0)).unwrap().as_i64().unwrap(), 2);
}

#[test]
fn absent_key_is_none() {
    let frame = Frame::new();
    assert!(frame.find(&name("missing")).is_none());
    assert!(frame.find(&VariableIndex::ParamIndex(3)).is_none());
}
