use vstd::prelude::*;
use std::rc::Rc;
use crate::compiler::Chunk;
use crate::native::NativeOp;

verus! {

/// A runtime (and compile-time constant) value. Scalars are held by value;
/// heap-backed payloads (strings, functions) are shared, immutable and
/// reference-counted, so copying a `Value` is cheap.
#[derive(Debug, PartialEq)]
pub enum Value {
    Nil,
    Bool(bool),
    Int(i32),
    String(Rc<Vec<u8>>),
    Function(Rc<Function>),
    Native(Native),
}

/// A compiled function: its declared arity and its instruction chunk.
#[derive(Debug, PartialEq)]
pub struct Function {
    pub arity: usize,
    pub chunk: Chunk,
}

/// A built-in function: a declared arity and a tag naming the fixed host
/// implementation.
#[derive(Clone, Copy, Debug, PartialEq, Eq, Structural)]
pub struct Native {
    pub arity: usize,
    pub op: NativeOp,
}

/// `false` and `nil` are the only falsey values.
pub open spec fn spec_is_falsey(v: Value) -> bool {
    v matches Value::Nil || v matches Value::Bool(false)
}

/// Relies on Rc::clone: the returned handle points at the same allocation,
/// so it carries the same value.
#[verifier::external_body]
pub(crate) fn rc_dup<T>(v: &Rc<T>) -> (res: Rc<T>)
    ensures
        res == *v,
{
    Rc::clone(v)
}

impl Value {
    /// Whether this value counts as false in a conditional.
    pub fn is_falsey(&self) -> (r: bool)
        ensures
            r == spec_is_falsey(*self),
    {
        match self {
            Value::Nil => true,
            Value::Bool(b) => !*b,
            _ => false,
        }
    }

    /// Wrap a host string as a shared string value (as its UTF-8 bytes).
    pub fn string(s: String) -> (r: Value)
        ensures
            r matches Value::String(b) && b@ == vstd::utf8::encode_utf8(s@),
    {
        Value::String(Rc::new(vstd::string::StrSliceExecFns::as_bytes_vec(s.as_str())))
    }

    /// Wrap a compiled function as a shared function value.
    pub fn function(f: Function) -> (r: Value)
        ensures
            r matches Value::Function(g) && g == f,
    {
        Value::Function(Rc::new(f))
    }

    /// Copy this value: scalars by value, heap payloads by a new shared
    /// handle to the same allocation.
    pub fn dup(&self) -> (r: Value)
        ensures
            r == *self,
    {
        match self {
            Value::Nil => Value::Nil,
            Value::Bool(b) => Value::Bool(*b),
            Value::Int(i) => Value::Int(*i),
            Value::String(s) => Value::String(rc_dup(s)),
            Value::Function(f) => Value::Function(rc_dup(f)),
            Value::Native(n) => Value::Native(*n),
        }
    }
}

} // verus!
