//! Bytecode: instructions, the line of each, and the constants they name.
use vstd::prelude::*;
use crate::value::Value;

verus! {

/// An instruction. `OpConstant` names a constant by its place in the
/// chunk's table.
#[derive(Debug, Clone, Copy, PartialEq, Eq, Structural)]
pub enum OpCode {
    OpConstant(usize),
    OpNil,
    OpTrue,
    OpFalse,
    OpEqual,
    OpGreater,
    OpLess,
    OpAdd,
    OpSubtract,
    OpMultiply,
    OpDivide,
    OpNot,
    OpNegate,
    OpReturn,
}

/// A block of bytecode: the instructions, the source line of each, and the
/// table of constants.
pub struct Chunk {
    pub code: Vec<OpCode>,
    pub lines: Vec<usize>,
    pub constants: Vec<Value>,
}

impl Chunk {
    /// Every instruction has its line.
    pub open spec fn wf(&self) -> bool {
        self.code@.len() == self.lines@.len()
    }

    /// Every `OpConstant` names a constant that is in the table.
    pub open spec fn closed(&self) -> bool {
        forall|i: int|
            0 <= i < self.code@.len() ==> (#[trigger] self.code@[i] matches OpCode::OpConstant(k)
                ==> k < self.constants@.len())
    }

    /// An empty chunk.
    pub fn new() -> (r: Self)
        ensures
            r.wf(),
            r.closed(),
            r.code@.len() == 0,
            r.constants@.len() == 0,
    {
        Chunk {
            code: Vec::with_capacity(8),
            lines: Vec::with_capacity(8),
            constants: Vec::with_capacity(8),
        }
    }

    /// Appends an instruction together with its line.
    pub fn write_chunk(&mut self, byte: OpCode, line: usize)
        ensures
            final(self).code@ == old(self).code@.push(byte),
            final(self).lines@ == old(self).lines@.push(line),
            final(self).constants == old(self).constants,
            old(self).wf() ==> final(self).wf(),
    {
        self.code.push(byte);
        // The line goes into an array of its own.
        self.lines.push(line);
    }

    /// Adds a constant and returns the index of the inserted value.
    pub fn add_constant(&mut self, value: Value) -> (r: usize)
        ensures
            r == old(self).constants@.len(),
            final(self).constants@ == old(self).constants@.push(value),
            final(self).code == old(self).code,
            final(self).lines == old(self).lines,
    {
        self.constants.push(value);
        self.constants.len() - 1
    }

    /// The number of instructions.
    pub fn len(&self) -> (r: usize)
        ensures
            r == self.code@.len(),
    {
        self.code.len()
    }

    /// The instruction at `offset`, if there is one.
    pub fn get(&self, offset: usize) -> (r: Option<OpCode>)
        ensures
            r == (if offset < self.code@.len() {
                Some(self.code@[offset as int])
            } else {
                None
            }),
    {
        if offset < self.code.len() {
            Some(self.code[offset])
        } else {
            None
        }
    }
}

} // verus!
