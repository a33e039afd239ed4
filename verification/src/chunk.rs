//! The bytecode chunk: instructions in the order they were emitted, the
//! source line of each, and the pool of constants.

use vstd::prelude::*;
use crate::value::{Literal, ValueArray};

verus! {

/// One instruction.
///
/// `OpConstant` carries its literal inline. The chunk's constant pool gets
/// every literal too, in the order of compilation, but running a chunk never
/// reads the pool.
#[derive(Debug, Clone, Copy, PartialEq, Eq, Structural)]
pub enum OpCode {
    OpReturn,
    OpNegate,
    OpAdd,
    OpSubtract,
    OpMultiply,
    OpDivide,
    OpConstant(Literal),
}

impl Default for OpCode {
    fn default() -> (op: OpCode)
        ensures
            op == OpCode::OpReturn,
    {
        OpCode::OpReturn
    }
}

/// An append-only bytecode program.
#[derive(Debug)]
pub struct Chunk {
    pub code: Vec<OpCode>,
    pub count: usize,
    pub constants: ValueArray,
    pub lines: Vec<i32>,
}

impl Chunk {
    /// Every instruction has its line, `count` is the number of
    /// instructions, and the pool is well formed.
    pub open spec fn wf(&self) -> bool {
        &&& self.lines@.len() == self.code@.len()
        &&& self.count == self.code@.len()
        &&& self.constants.wf()
    }

    /// Whether this chunk holds all that the earlier one held, each entry
    /// where it was: a chunk only ever grows at its end.
    pub open spec fn extends(&self, earlier: Chunk) -> bool {
        &&& earlier.code@.len() <= self.code@.len()
        &&& earlier.lines@.len() <= self.lines@.len()
        &&& earlier.constants@.len() <= self.constants@.len()
        &&& forall|i: int| 0 <= i < earlier.code@.len() ==> #[trigger] self.code@[i] == earlier.code@[i]
        &&& forall|i: int|
            0 <= i < earlier.lines@.len() ==> #[trigger] self.lines@[i] == earlier.lines@[i]
        &&& forall|i: int|
            0 <= i < earlier.constants@.len() ==> #[trigger] self.constants@[i]
                == earlier.constants@[i]
    }

    /// An empty chunk.
    pub fn init_chunk() -> (chunk: Chunk)
        ensures
            chunk.wf(),
            chunk.code@ == Seq::<OpCode>::empty(),
            chunk.lines@ == Seq::<i32>::empty(),
            chunk.constants@ == Seq::<Literal>::empty(),
    {
        Chunk {
            code: Vec::with_capacity(8),
            count: 0,
            constants: ValueArray::init_value_array(),
            lines: Vec::with_capacity(8),
        }
    }

    /// Appends the literal to the constant pool and returns the instruction
    /// that loads it. Code and lines are untouched.
    pub fn add_constant(&mut self, value: Literal) -> (op: OpCode)
        requires
            old(self).wf(),
        ensures
            final(self).wf(),
            op == OpCode::OpConstant(value),
            final(self).constants@ == old(self).constants@.push(value),
            final(self).code@ == old(self).code@,
            final(self).lines@ == old(self).lines@,
            final(self).extends(*old(self)),
    {
        self.constants.write_value_array(value);
        OpCode::OpConstant(value)
    }

    /// Appends one instruction and the source line it is tagged with. What
    /// was emitted before stays as it was, and the pool is untouched.
    pub fn write_chunk(&mut self, inst: OpCode, line: i32)
        requires
            old(self).wf(),
        ensures
            final(self).wf(),
            final(self).code@ == old(self).code@.push(inst),
            final(self).lines@ == old(self).lines@.push(line),
            final(self).constants@ == old(self).constants@,
            final(self).extends(*old(self)),
    {
        self.lines.push(line);
        self.code.push(inst);
        self.count = self.code.len();
    }
}

/// A copy of the chunk.
pub fn copy_chunk(chunk: &Chunk) -> (copy: Chunk)
    requires
        chunk.wf(),
    ensures
        copy.wf(),
        copy.code@ == chunk.code@,
        copy.lines@ == chunk.lines@,
        copy.constants@ == chunk.constants@,
{
    let mut copy = Chunk::init_chunk();
    let mut i: usize = 0;
    while i < chunk.constants.values.len()
        invariant
            chunk.wf(),
            copy.wf(),
            i <= chunk.constants@.len(),
            copy.constants@ == chunk.constants@.take(i as int),
            copy.code@.len() == 0,
            copy.lines@.len() == 0,
        decreases chunk.constants@.len() - i,
    {
        let _ = copy.add_constant(chunk.constants.values[i]);
        i += 1;
        assert(chunk.constants@.take(i as int) == chunk.constants@.take(i - 1).push(
            chunk.constants@[i - 1],
        ));
    }
    let mut j: usize = 0;
    while j < chunk.code.len()
        invariant
            chunk.wf(),
            copy.wf(),
            j <= chunk.code@.len(),
            copy.constants@ == chunk.constants@.take(chunk.constants@.len() as int),
            copy.code@ == chunk.code@.take(j as int),
            copy.lines@ == chunk.lines@.take(j as int),
        decreases chunk.code@.len() - j,
    {
        copy.write_chunk(chunk.code[j], chunk.lines[j]);
        j += 1;
        assert(chunk.code@.take(j as int) == chunk.code@.take(j - 1).push(chunk.code@[j - 1]));
        assert(chunk.lines@.take(j as int) == chunk.lines@.take(j - 1).push(chunk.lines@[j - 1]));
    }
    assert(chunk.constants@.take(chunk.constants@.len() as int) == chunk.constants@);
    assert(chunk.code@.take(chunk.code@.len() as int) == chunk.code@);
    assert(chunk.lines@.take(chunk.lines@.len() as int) == chunk.lines@);
    copy
}

} // verus!
