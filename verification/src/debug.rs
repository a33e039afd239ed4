//! The disassembler: a chunk as rows, one per instruction, for whoever
//! prints them.

use vstd::prelude::*;
use crate::chunk::{Chunk, OpCode};

verus! {

/// One row of a listing: the instruction's offset, its source line unless
/// the instruction before it has the same one, and the instruction with its
/// operand.
#[derive(Debug, Clone, Copy, PartialEq, Eq, Structural)]
pub struct Row {
    pub offset: usize,
    /// `None` stands for the mark that the line is that of the row above.
    pub line: Option<i32>,
    pub op: OpCode,
}

/// The row of the instruction at `offset`.
pub open spec fn row_of(code: Seq<OpCode>, lines: Seq<i32>, offset: int) -> Row {
    Row {
        offset: offset as usize,
        line: if offset > 0 && lines[offset] == lines[offset - 1] {
            None
        } else {
            Some(lines[offset])
        },
        op: code[offset],
    }
}

/// The listing of a chunk: the rows of its instructions, in order.
pub open spec fn listing(code: Seq<OpCode>, lines: Seq<i32>) -> Seq<Row> {
    Seq::new(code.len(), |offset: int| row_of(code, lines, offset))
}

/// The name under which an instruction is listed.
pub open spec fn mnemonic_of(op: OpCode) -> Seq<char> {
    match op {
        OpCode::OpConstant(_) => "OpConstant"@,
        OpCode::OpReturn => "OpReturn"@,
        OpCode::OpNegate => "OpNegate"@,
        OpCode::OpAdd => "OpAdd"@,
        OpCode::OpSubtract => "OpSubtract"@,
        OpCode::OpDivide => "OpDivide"@,
        OpCode::OpMultiply => "OpMultiply"@,
    }
}

/// The name under which an instruction is listed.
pub fn mnemonic(op: OpCode) -> (name: &'static str)
    ensures
        name@ == mnemonic_of(op),
{
    match op {
        OpCode::OpConstant(_) => "OpConstant",
        OpCode::OpReturn => "OpReturn",
        OpCode::OpNegate => "OpNegate",
        OpCode::OpAdd => "OpAdd",
        OpCode::OpSubtract => "OpSubtract",
        OpCode::OpDivide => "OpDivide",
        OpCode::OpMultiply => "OpMultiply",
    }
}

/// The rows of all instructions of the chunk, in order.
pub fn disassemble_chunk(chunk: &Chunk) -> (rows: Vec<Row>)
    requires
        chunk.wf(),
    ensures
        rows@ == listing(chunk.code@, chunk.lines@),
{
    let mut rows: Vec<Row> = Vec::new();
    let mut offset: usize = 0;
    while offset < chunk.count
        invariant
            chunk.wf(),
            offset <= chunk.count,
            rows@ == listing(chunk.code@, chunk.lines@).take(offset as int),
        decreases chunk.count - offset,
    {
        let (row, next) = disassemble_instruction(chunk, offset);
        rows.push(row);
        assert(listing(chunk.code@, chunk.lines@).take(next as int) == listing(
            chunk.code@,
            chunk.lines@,
        ).take(offset as int).push(row));
        offset = next;
    }
    assert(listing(chunk.code@, chunk.lines@).take(offset as int) == listing(
        chunk.code@,
        chunk.lines@,
    ));
    rows
}

/// The row of the instruction at `offset`, and the offset of the instruction
/// behind it.
pub fn disassemble_instruction(chunk: &Chunk, offset: usize) -> (listed: (Row, usize))
    requires
        chunk.wf(),
        offset < chunk.count,
    ensures
        listed.0 == row_of(chunk.code@, chunk.lines@, offset as int),
        listed.1 == offset + 1,
{
    let line = if offset > 0 && chunk.lines[offset] == chunk.lines[offset - 1] {
        None
    } else {
        Some(chunk.lines[offset])
    };
    let inst = chunk.code[offset];
    (Row { offset, line, op: inst }, offset + 1)
}

/// A chunk has one listing: chunks that hold the same instructions with the
/// same lines are listed alike, row for row, however often it is done.
pub proof fn law_listing_repeats(first: Chunk, second: Chunk)
    requires
        first.code@ == second.code@,
        first.lines@ == second.lines@,
    ensures
        listing(first.code@, first.lines@) == listing(second.code@, second.lines@),
{
}

} // verus!
