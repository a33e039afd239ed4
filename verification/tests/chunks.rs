use exprvm::chunk::{copy_chunk, Chunk, OpCode};
use exprvm::debug::{disassemble_chunk, disassemble_instruction, mnemonic, Row};
use exprvm::value::{Literal, Value, ValueArray};

#[test]
fn new_chunk_is_empty() {
    let chunk = Chunk::init_chunk();
    assert_eq!(chunk.count, 0);
    assert!(chunk.code.is_empty());
    assert!(chunk.lines.is_empty());
    assert_eq!(chunk.constants.count, 0);
    assert!(chunk.constants.values.is_empty());
}

#[test]
fn write_chunk_appends_instruction_and_line() {
    let mut chunk = Chunk::init_chunk();
    chunk.write_chunk(OpCode::OpNegate, 3);
    chunk.write_chunk(OpCode::OpReturn, 4);
    assert_eq!(chunk.code, vec![OpCode::OpNegate, OpCode::OpReturn]);
    assert_eq!(chunk.lines, vec![3, 4]);
    assert_eq!(chunk.count, 2);
    assert_eq!(chunk.lines.len(), chunk.code.len());
    assert!(chunk.constants.values.is_empty());
}

#[test]
fn add_constant_extends_the_pool_only() {
    let mut chunk = Chunk::init_chunk();
    let first = Literal { start: 0, length: 1 };
    let second = Literal { start: 4, length: 3 };
    assert_eq!(chunk.add_constant(first), OpCode::OpConstant(first));
    assert_eq!(chunk.add_constant(second), OpCode::OpConstant(second));
    assert_eq!(chunk.constants.values, vec![first, second]);
    assert_eq!(chunk.constants.count, 2);
    assert_eq!(chunk.count, 0);
    assert!(chunk.code.is_empty());
}

#[test]
fn default_instruction_is_return() {
    assert_eq!(OpCode::default(), OpCode::OpReturn);
}

#[test]
fn value_array_keeps_order_and_count() {
    let mut array = ValueArray::init_value_array();
    assert_eq!(array.count, 0);
    array.write_value_array(Literal { start: 5, length: 2 });
    array.write_value_array(Literal { start: 1, length: 1 });
    assert_eq!(array.count, 2);
    assert_eq!(
        array.values,
        vec![Literal { start: 5, length: 2 }, Literal { start: 1, length: 1 }]
    );
}

#[test]
fn copy_of_a_chunk_holds_the_same() {
    let mut chunk = Chunk::init_chunk();
    let op = chunk.add_constant(Literal { start: 2, length: 2 });
    chunk.write_chunk(op, 1);
    chunk.write_chunk(OpCode::OpReturn, 2);
    let copy = copy_chunk(&chunk);
    assert_eq!(copy.code, chunk.code);
    assert_eq!(copy.lines, chunk.lines);
    assert_eq!(copy.constants.values, chunk.constants.values);
    assert_eq!(copy.count, 2);
    assert_eq!(copy.constants.count, 1);
}

#[test]
fn negation_flips_the_sign_bit() {
    for number in [0.0f64, -0.0, 1.5, -7.0, f64::INFINITY, f64::MAX, f64::MIN_POSITIVE, f64::NAN] {
        let negated = Value::from_bits(number.to_bits()).negate();
        assert_eq!(negated.bits, (-number).to_bits());
        assert_eq!(negated.negate().bits, number.to_bits());
    }
    assert_eq!(Value::from_bits(7.0f64.to_bits()).negate().bits, (-7.0f64).to_bits());
}

#[test]
fn zero_is_told_from_the_rest() {
    for number in [0.0f64, -0.0, 1.0, -1.0, f64::MIN_POSITIVE, 5e-324, f64::NAN, f64::INFINITY] {
        assert_eq!(Value::from_bits(number.to_bits()).is_zero(), number == 0.0, "{}", number);
    }
}

#[test]
fn listing_marks_repeated_lines() {
    let mut chunk = Chunk::init_chunk();
    let literal = Literal { start: 0, length: 1 };
    chunk.write_chunk(OpCode::OpConstant(literal), 1);
    chunk.write_chunk(OpCode::OpNegate, 1);
    chunk.write_chunk(OpCode::OpReturn, 2);
    let rows = disassemble_chunk(&chunk);
    assert_eq!(
        rows,
        vec![
            Row { offset: 0, line: Some(1), op: OpCode::OpConstant(literal) },
            Row { offset: 1, line: None, op: OpCode::OpNegate },
            Row { offset: 2, line: Some(2), op: OpCode::OpReturn },
        ]
    );
    assert_eq!(disassemble_instruction(&chunk, 1), (rows[1], 2));
}

#[test]
fn listing_twice_gives_the_same_rows() {
    let mut chunk = Chunk::init_chunk();
    chunk.write_chunk(OpCode::OpAdd, 7);
    chunk.write_chunk(OpCode::OpDivide, 7);
    chunk.write_chunk(OpCode::OpReturn, 9);
    assert_eq!(disassemble_chunk(&chunk), disassemble_chunk(&chunk));
    assert_eq!(disassemble_chunk(&copy_chunk(&chunk)), disassemble_chunk(&chunk));
}

#[test]
fn listing_of_an_empty_chunk_is_empty() {
    assert!(disassemble_chunk(&Chunk::init_chunk()).is_empty());
}

#[test]
fn instructions_have_their_names() {
    assert_eq!(mnemonic(OpCode::OpConstant(Literal { start: 0, length: 1 })), "OpConstant");
    assert_eq!(mnemonic(OpCode::OpReturn), "OpReturn");
    assert_eq!(mnemonic(OpCode::OpNegate), "OpNegate");
    assert_eq!(mnemonic(OpCode::OpAdd), "OpAdd");
    assert_eq!(mnemonic(OpCode::OpSubtract), "OpSubtract");
    assert_eq!(mnemonic(OpCode::OpMultiply), "OpMultiply");
    assert_eq!(mnemonic(OpCode::OpDivide), "OpDivide");
}
