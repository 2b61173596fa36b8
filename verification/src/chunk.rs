//! The instruction buffer: one compiled function's instruction bytes, its
//! per-byte source-line table, and its constant pool.

use vstd::prelude::*;

use crate::value::Value;

verus! {

/// The mathematical content of a [`Chunk`].
pub struct ChunkModel {
    /// The instruction bytes.
    pub code: Seq<u8>,
    /// The source line that produced each byte: `lines[i]` answers "what
    /// line produced byte `i`".
    pub lines: Seq<u32>,
    /// The constant pool, in insertion order.
    pub constants: Seq<Value>,
}

/// One compiled function's program text: an append-only byte buffer, a
/// parallel line table (one entry per emitted byte), and a constant pool
/// whose indices are assigned at insertion time.
#[derive(Debug, Clone)]
pub struct Chunk {
    pub code: Vec<u8>,
    pub lines: Vec<u32>,
    pub constants: Vec<Value>,
}

impl View for Chunk {
    type V = ChunkModel;

    open spec fn view(&self) -> ChunkModel {
        ChunkModel { code: self.code@, lines: self.lines@, constants: self.constants@ }
    }
}

impl Chunk {
    /// An empty chunk.
    pub fn new() -> (c: Chunk)
        ensures
            c@.code == Seq::<u8>::empty(),
            c@.lines == Seq::<u32>::empty(),
            c@.constants == Seq::<Value>::empty(),
    {
        Chunk { code: Vec::new(), lines: Vec::new(), constants: Vec::new() }
    }

    /// Appends one instruction byte, recording the source line that
    /// produced it.
    pub fn write(&mut self, byte: u8, line: u32)
        ensures
            final(self)@.code == old(self)@.code.push(byte),
            final(self)@.lines == old(self)@.lines.push(line),
            final(self)@.constants == old(self)@.constants,
    {
        self.code.push(byte);
        self.lines.push(line);
    }

    /// Appends a value to the constant pool and returns its index, which
    /// is assigned at insertion time and never changes afterwards.
    pub fn add_constant(&mut self, value: Value) -> (index: usize)
        ensures
            final(self)@.constants == old(self)@.constants.push(value),
            final(self)@.code == old(self)@.code,
            final(self)@.lines == old(self)@.lines,
            index == old(self)@.constants.len(),
    {
        let index = self.constants.len();
        self.constants.push(value);
        index
    }
}

} // verus!
