use std::rc::Rc;
use bao::compiler::Chunk;
use bao::native::{apply, registry, NativeOp};
use bao::token::{ErrorKind, Location};
use bao::value::{Function, Native, Value};

#[test]
fn only_false_and_nil_count_as_falsey() {
    assert!(Value::Nil.is_falsey());
    assert!(Value::Bool(false).is_falsey());
    assert!(!Value::Bool(true).is_falsey());
    assert!(!Value::Int(0).is_falsey());
    assert!(!Value::string(String::from("")).is_falsey());
    assert!(!Value::Native(Native { arity: 1, op: NativeOp::Not }).is_falsey());
}

#[test]
fn string_values_carry_their_bytes() {
    match Value::string(String::from("héllo")) {
        Value::String(s) => {
            let bytes: &[u8] = &s;
            assert_eq!(bytes, "héllo".as_bytes());
        },
        other => panic!("expected a string, got {:?}", other),
    }
}

#[test]
fn function_values_share_their_function() {
    let f = Function { arity: 2, chunk: Chunk { code: vec![], constants: vec![] } };
    match Value::function(f) {
        Value::Function(g) => assert_eq!(g.arity, 2),
        other => panic!("expected a function, got {:?}", other),
    }
}

#[test]
fn values_copy_cheaply_and_equally() {
    let v = Value::string(String::from("shared"));
    let w = v.dup();
    assert_eq!(v, w);
    let i = Value::Int(7).dup();
    assert_eq!(i, Value::Int(7));
}

#[test]
fn the_registry_holds_the_seven_built_ins() {
    let reg = registry();
    let names: Vec<&[u8]> = reg.iter().map(|p| p.0.as_slice()).collect();
    assert_eq!(
        names,
        vec![
            &b"+"[..],
            &b"-"[..],
            &b"="[..],
            &b"not="[..],
            &b"<"[..],
            &b"<="[..],
            &b"not"[..],
        ]
    );
    assert!(reg.iter().all(|p| p.1.arity == if p.1.op == NativeOp::Not { 1 } else { 2 }));
}

#[test]
fn applying_built_ins_directly() {
    let two = vec![Value::Int(4), Value::Int(9)];
    assert_eq!(apply(NativeOp::Add, &two), Some(Value::Int(13)));
    assert_eq!(apply(NativeOp::Sub, &two), Some(Value::Int(-5)));
    assert_eq!(apply(NativeOp::Less, &two), Some(Value::Bool(true)));
    assert_eq!(apply(NativeOp::Equal, &two), Some(Value::Bool(false)));
    assert_eq!(apply(NativeOp::Add, &vec![Value::Int(1)]), None);
    assert_eq!(apply(NativeOp::Not, &vec![Value::Nil]), Some(Value::Bool(true)));
}

#[test]
fn locations_attach_to_error_kinds() {
    let loc = Location { line: 3, column: 9 };
    let e = loc.error(ErrorKind::UnexpectedToken);
    assert_eq!(e.kind, ErrorKind::UnexpectedToken);
    assert_eq!((e.line, e.column), (3, 9));
}
