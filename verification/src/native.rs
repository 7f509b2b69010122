use vstd::prelude::*;
use crate::value::{Native, Value, spec_is_falsey};

verus! {

/// The tag of one fixed built-in implementation.
///
/// The arithmetic built-ins are total over two integers: on overflow they
/// wrap at the fixed width rather than fail.
#[derive(Clone, Copy, Debug, PartialEq, Eq, Structural)]
pub enum NativeOp {
    Add,
    Sub,
    Equal,
    NotEqual,
    Less,
    LessEq,
    Not,
}

/// Integer addition, wrapping on overflow; defined only on two `Int`s.
pub open spec fn spec_add(a: Value, b: Value) -> Option<Value> {
    match (a, b) {
        (Value::Int(x), Value::Int(y)) => Some(Value::Int(x.wrapping_add(y))),
        _ => None,
    }
}

/// Integer subtraction, wrapping on overflow; defined only on two `Int`s.
pub open spec fn spec_sub(a: Value, b: Value) -> Option<Value> {
    match (a, b) {
        (Value::Int(x), Value::Int(y)) => Some(Value::Int(x.wrapping_sub(y))),
        _ => None,
    }
}

/// Integer equality; defined only on two `Int`s.
pub open spec fn spec_eq(a: Value, b: Value) -> Option<Value> {
    match (a, b) {
        (Value::Int(x), Value::Int(y)) => Some(Value::Bool(x == y)),
        _ => None,
    }
}

/// Integer inequality; defined only on two `Int`s.
pub open spec fn spec_not_eq(a: Value, b: Value) -> Option<Value> {
    match (a, b) {
        (Value::Int(x), Value::Int(y)) => Some(Value::Bool(x != y)),
        _ => None,
    }
}

/// Integer strict order; defined only on two `Int`s.
pub open spec fn spec_lt(a: Value, b: Value) -> Option<Value> {
    match (a, b) {
        (Value::Int(x), Value::Int(y)) => Some(Value::Bool(x < y)),
        _ => None,
    }
}

/// Integer non-strict order; defined only on two `Int`s.
pub open spec fn spec_lt_eq(a: Value, b: Value) -> Option<Value> {
    match (a, b) {
        (Value::Int(x), Value::Int(y)) => Some(Value::Bool(x <= y)),
        _ => None,
    }
}

/// Logical negation by truthiness; defined on every value.
pub open spec fn spec_not(a: Value) -> Option<Value> {
    Some(Value::Bool(spec_is_falsey(a)))
}

/// What a built-in returns on given arguments: `None` marks an operand
/// shape the implementation does not support, which the machine treats as
/// a fatal condition.
pub open spec fn native_result(op: NativeOp, args: Seq<Value>) -> Option<Value> {
    match op {
        NativeOp::Add => if args.len() == 2 { spec_add(args[0], args[1]) } else { None },
        NativeOp::Sub => if args.len() == 2 { spec_sub(args[0], args[1]) } else { None },
        NativeOp::Equal => if args.len() == 2 { spec_eq(args[0], args[1]) } else { None },
        NativeOp::NotEqual => if args.len() == 2 { spec_not_eq(args[0], args[1]) } else { None },
        NativeOp::Less => if args.len() == 2 { spec_lt(args[0], args[1]) } else { None },
        NativeOp::LessEq => if args.len() == 2 { spec_lt_eq(args[0], args[1]) } else { None },
        NativeOp::Not => if args.len() == 1 { spec_not(args[0]) } else { None },
    }
}

pub fn add(a: &Value, b: &Value) -> (r: Option<Value>)
    ensures
        r == spec_add(*a, *b),
{
    match (a, b) {
        (Value::Int(x), Value::Int(y)) => Some(Value::Int(x.wrapping_add(*y))),
        _ => None,
    }
}

pub fn sub(a: &Value, b: &Value) -> (r: Option<Value>)
    ensures
        r == spec_sub(*a, *b),
{
    match (a, b) {
        (Value::Int(x), Value::Int(y)) => Some(Value::Int(x.wrapping_sub(*y))),
        _ => None,
    }
}

pub fn eq(a: &Value, b: &Value) -> (r: Option<Value>)
    ensures
        r == spec_eq(*a, *b),
{
    match (a, b) {
        (Value::Int(x), Value::Int(y)) => Some(Value::Bool(*x == *y)),
        _ => None,
    }
}

pub fn not_eq(a: &Value, b: &Value) -> (r: Option<Value>)
    ensures
        r == spec_not_eq(*a, *b),
{
    match (a, b) {
        (Value::Int(x), Value::Int(y)) => Some(Value::Bool(*x != *y)),
        _ => None,
    }
}

pub fn lt(a: &Value, b: &Value) -> (r: Option<Value>)
    ensures
        r == spec_lt(*a, *b),
{
    match (a, b) {
        (Value::Int(x), Value::Int(y)) => Some(Value::Bool(*x < *y)),
        _ => None,
    }
}

pub fn lt_eq(a: &Value, b: &Value) -> (r: Option<Value>)
    ensures
        r == spec_lt_eq(*a, *b),
{
    match (a, b) {
        (Value::Int(x), Value::Int(y)) => Some(Value::Bool(*x <= *y)),
        _ => None,
    }
}

pub fn not(a: &Value) -> (r: Option<Value>)
    ensures
        r == spec_not(*a),
{
    Some(Value::Bool(a.is_falsey()))
}

/// Run the built-in named by `op` on the argument list.
pub fn apply(op: NativeOp, args: &Vec<Value>) -> (r: Option<Value>)
    ensures
        r == native_result(op, args@),
{
    match op {
        NativeOp::Add => if args.len() == 2 { crate::native::add(&args[0], &args[1]) } else { None },
        NativeOp::Sub => if args.len() == 2 { crate::native::sub(&args[0], &args[1]) } else { None },
        NativeOp::Equal => if args.len() == 2 { crate::native::eq(&args[0], &args[1]) } else { None },
        NativeOp::NotEqual => if args.len() == 2 { crate::native::not_eq(&args[0], &args[1]) } else { None },
        NativeOp::Less => if args.len() == 2 { crate::native::lt(&args[0], &args[1]) } else { None },
        NativeOp::LessEq => if args.len() == 2 { crate::native::lt_eq(&args[0], &args[1]) } else { None },
        NativeOp::Not => if args.len() == 1 { crate::native::not(&args[0]) } else { None },
    }
}

/// The fixed built-in registry: each name in order, with its arity and tag.
pub open spec fn spec_registry() -> Seq<(Seq<u8>, Native)> {
    seq![
        (seq![43u8], Native { arity: 2, op: NativeOp::Add }),  // +
        (seq![45u8], Native { arity: 2, op: NativeOp::Sub }),  // -
        (seq![61u8], Native { arity: 2, op: NativeOp::Equal }),  // =
        (seq![110u8, 111u8, 116u8, 61u8], Native { arity: 2, op: NativeOp::NotEqual }),  // not=
        (seq![60u8], Native { arity: 2, op: NativeOp::Less }),  // <
        (seq![60u8, 61u8], Native { arity: 2, op: NativeOp::LessEq }),  // <=
        (seq![110u8, 111u8, 116u8], Native { arity: 1, op: NativeOp::Not }),  // not
    ]
}

/// The registry's values in order, as they stand on the machine's stack
/// before the top-level code runs.
pub open spec fn spec_registry_values() -> Seq<Value> {
    spec_registry().map_values(|p: (Seq<u8>, Native)| Value::Native(p.1))
}

/// Build the fixed list of built-in bindings, in registry order.
pub fn registry() -> (r: Vec<(Vec<u8>, Native)>)
    ensures
        r@.len() == spec_registry().len(),
        forall|i: int|
            0 <= i < r@.len() ==> (#[trigger] r@[i]).0@ == spec_registry()[i].0 && r@[i].1
                == spec_registry()[i].1,
{
    let mut r: Vec<(Vec<u8>, Native)> = Vec::new();
    r.push((vec![43u8], Native { arity: 2, op: NativeOp::Add }));  // +
    r.push((vec![45u8], Native { arity: 2, op: NativeOp::Sub }));  // -
    r.push((vec![61u8], Native { arity: 2, op: NativeOp::Equal }));  // =
    r.push((vec![110u8, 111u8, 116u8, 61u8], Native { arity: 2, op: NativeOp::NotEqual }));  // not=
    r.push((vec![60u8], Native { arity: 2, op: NativeOp::Less }));  // <
    r.push((vec![60u8, 61u8], Native { arity: 2, op: NativeOp::LessEq }));  // <=
    r.push((vec![110u8, 111u8, 116u8], Native { arity: 1, op: NativeOp::Not }));  // not
    proof {
        assert(r@[0].0@ =~= spec_registry()[0].0);
        assert(r@[1].0@ =~= spec_registry()[1].0);
        assert(r@[2].0@ =~= spec_registry()[2].0);
        assert(r@[3].0@ =~= spec_registry()[3].0);
        assert(r@[4].0@ =~= spec_registry()[4].0);
        assert(r@[5].0@ =~= spec_registry()[5].0);
        assert(r@[6].0@ =~= spec_registry()[6].0);
    }
    r
}

} // verus!
