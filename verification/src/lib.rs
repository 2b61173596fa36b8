//! A verified code-generation backend for a small, statically typed
//! scripting language: it lowers a type-annotated abstract syntax tree
//! into linear bytecode for a stack-based virtual machine.
//!
//! The lowering itself (instruction selection, scope resolution, forward
//! and backward jump patching, function/class/program assembly) is
//! specified by a mathematical model of the whole pass (`lower`), and the
//! executable compiler is proved to produce exactly what the model says.

pub mod artifact;
pub mod assemble;
pub mod ast;
pub mod builder;
pub mod chunk;
pub mod growth;
pub mod heap;
pub mod interner;
pub mod laws;
pub mod lower;
pub mod opcode;
pub mod pos;
pub mod report;
pub mod scope;
pub mod value;
