//! The instruction set of the stack-based virtual machine.
//!
//! Every instruction's first byte is its opcode; most opcodes take zero,
//! one or two single-byte operands. Two jump encodings exist and must not
//! be confused: the forward jumps `JUMP`, `JUMPIF` and `JUMPNOT` and the
//! backward jump `LOOP` carry a two-byte big-endian relative distance,
//! while the jumps emitted for `break` and `continue` carry the raw stored
//! position truncated to one byte (see [`crate::builder`]).

use vstd::prelude::*;

verus! {

/// Load a constant: one operand, the constant-pool index.
pub const CONSTANT: u8 = 1;
/// Push nil.
pub const NIL: u8 = 2;
/// Push boolean true.
pub const TRUE: u8 = 3;
/// Push boolean false.
pub const FALSE: u8 = 4;
/// Discard the top of the evaluation stack.
pub const POP: u8 = 5;
/// Print the top of the evaluation stack.
pub const PRINT: u8 = 6;
/// Return from the current function.
pub const RETURN: u8 = 7;
/// Integer addition.
pub const ADD: u8 = 8;
/// Integer subtraction.
pub const SUB: u8 = 9;
/// Integer multiplication.
pub const MUL: u8 = 10;
/// Integer division.
pub const DIV: u8 = 11;
/// Floating-point addition.
pub const ADDF: u8 = 12;
/// Floating-point subtraction.
pub const SUBF: u8 = 13;
/// Floating-point multiplication.
pub const MULF: u8 = 14;
/// Floating-point division.
pub const DIVF: u8 = 15;
/// Integer negation.
pub const NEGATE: u8 = 16;
/// Floating-point negation.
pub const NEGATEF: u8 = 17;
/// Logical not.
pub const NOT: u8 = 18;
/// Representation-agnostic equality.
pub const EQUAL: u8 = 19;
/// Integer strict less-than.
pub const LESS: u8 = 20;
/// Floating-point strict less-than.
pub const LESSF: u8 = 21;
/// Integer strict greater-than.
pub const GREATER: u8 = 22;
/// Floating-point strict greater-than.
pub const GREATERF: u8 = 23;
/// String concatenation.
pub const CONCAT: u8 = 24;
/// Unconditional forward jump: two-byte big-endian relative distance.
pub const JUMP: u8 = 25;
/// Forward jump if the top of the stack is truthy: two-byte distance.
pub const JUMPIF: u8 = 26;
/// Forward jump if the top of the stack is falsey: two-byte distance.
pub const JUMPNOT: u8 = 27;
/// Backward jump: two-byte big-endian distance, subtracted from the
/// position just past the operand bytes.
pub const LOOP: u8 = 28;
/// Store the top of the stack in a local slot: one operand, the slot.
pub const SETLOCAL: u8 = 29;
/// Load a local slot: one operand, the slot.
pub const GETLOCAL: u8 = 30;
/// Load a parameter: one operand, the parameter index.
pub const GETPARAM: u8 = 31;
/// Call a user function: operands, the callee tag and the argument count.
pub const CALL: u8 = 32;
/// Call a host-provided native function: one operand, the callee tag.
pub const CALLNATIVE: u8 = 33;
/// Build an array from stack items: one operand, the item count.
pub const ARRAY: u8 = 34;
/// Index an array.
pub const INDEXARRAY: u8 = 35;
/// Index a string.
pub const INDEXSTRING: u8 = 36;
/// Cast integer to float.
pub const INT2FLOAT: u8 = 37;
/// Cast float to integer.
pub const FLOAT2INT: u8 = 38;
/// Cast boolean to integer.
pub const BOOL2INT: u8 = 39;
/// Cast integer to string.
pub const INT2STR: u8 = 40;
/// Cast float to string.
pub const FLOAT2STR: u8 = 41;
/// Construct a class instance: operands, the class tag, the property
/// count, and then one name tag per property in reverse order.
pub const CLASSINSTANCE: u8 = 42;
/// Call a method on an instance: operands, the method tag and the
/// argument count.
pub const CALLINSTANCEMETHOD: u8 = 43;
/// Call a static method: operands, the class tag, the method tag and the
/// argument count.
pub const CALLSTATICMETHOD: u8 = 44;
/// Read a property of an instance: one operand, the property name tag.
pub const GETPROPERTY: u8 = 45;
/// Write a property of an instance: one operand, the property name tag.
pub const SETPROPERTY: u8 = 46;
/// Read a bound method of an instance: one operand, the method name tag.
pub const GETMETHOD: u8 = 47;
/// Build an enum variant: operands, the enum tag and the variant tag.
pub const ENUM: u8 = 48;

} // verus!
