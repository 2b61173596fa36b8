//! Runtime constant values: the tagged union stored in a chunk's constant
//! pool.
//!
//! Floating-point constants are carried as their raw bit pattern: the
//! compiler never computes with them, it only stores them, and the
//! execution engine reinterprets the bits. Heap values (strings, compiled
//! closures) live in the caller-supplied allocation list ([`crate::heap`]),
//! and a `Value` refers to one by its position in that list.

use vstd::prelude::*;

verus! {

/// A constant value as the virtual machine sees it.
#[derive(Debug, Clone, Copy, PartialEq, Eq, Structural)]
pub enum Value {
    /// The nil value.
    Nil,
    /// A boolean.
    Bool(bool),
    /// A signed integer.
    Int(i64),
    /// A floating-point number, as its raw bit pattern.
    Float(u64),
    /// A heap object: the index of an entry in the allocation list.
    Obj(usize),
}

impl Value {
    /// The nil constant.
    pub fn nil() -> (v: Value)
        ensures
            v == Value::Nil,
    {
        Value::Nil
    }

    /// An integer constant.
    pub fn integer(n: i64) -> (v: Value)
        ensures
            v == Value::Int(n),
    {
        Value::Int(n)
    }

    /// A floating-point constant, from its raw bit pattern.
    pub fn float(bits: u64) -> (v: Value)
        ensures
            v == Value::Float(bits),
    {
        Value::Float(bits)
    }

    /// A reference to the heap object at `index` in the allocation list.
    pub fn object(index: usize) -> (v: Value)
        ensures
            v == Value::Obj(index),
    {
        Value::Obj(index)
    }
}

} // verus!
