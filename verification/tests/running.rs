use exprvm::chunk::{Chunk, OpCode};
use exprvm::compiler::{Diagnostic, Message, Place};
use exprvm::value::{Literal, Value};
use exprvm::vm::{interpret, Action, InterpretResult, State, VM};

/// Runs the machine to its end the way a host does: reads each literal from
/// the source, computes each operation in doubles, and keeps what is printed.
fn drive(vm: &mut VM, source: &str) -> (InterpretResult, Option<f64>, usize) {
    let mut undone = 0;
    loop {
        match vm.run() {
            Action::Load(literal) => {
                let text = &source[literal.start..literal.start + literal.length];
                if let Ok(number) = text.parse::<f64>() {
                    vm.push(Value::from_bits(number.to_bits()));
                }
            }
            Action::Apply(op, lhs, rhs) => {
                let (lhs, rhs) = (f64::from_bits(lhs.bits), f64::from_bits(rhs.bits));
                let result = match op {
                    OpCode::OpAdd => lhs + rhs,
                    OpCode::OpSubtract => lhs - rhs,
                    OpCode::OpMultiply => lhs * rhs,
                    OpCode::OpDivide => lhs / rhs,
                    _ => unreachable!(),
                };
                vm.push(Value::from_bits(result.to_bits()));
            }
            Action::DivideByZero => undone += 1,
            Action::Print(value) => {
                return (InterpretResult::InterpretOK, Some(f64::from_bits(value.bits)), undone)
            }
            Action::Underflow(_, _) => return (InterpretResult::InterpretRuntimeError, None, undone),
            Action::Halt(result) => return (result, None, undone),
        }
    }
}

fn evaluate(source: &str) -> (InterpretResult, Option<f64>) {
    let (mut vm, _) = interpret(source);
    let (result, printed, _) = drive(&mut vm, source);
    (result, printed)
}

fn number(value: f64) -> Value {
    Value::from_bits(value.to_bits())
}

fn machine(code: &[OpCode]) -> VM {
    let mut chunk = Chunk::init_chunk();
    for op in code {
        chunk.write_chunk(*op, 1);
    }
    VM::init_vm(&chunk)
}

#[test]
fn subtraction_takes_the_earlier_operand_as_left() {
    assert_eq!(evaluate("5 - 2"), (InterpretResult::InterpretOK, Some(3.0)));
    assert_eq!(evaluate("2 - 5"), (InterpretResult::InterpretOK, Some(-3.0)));
}

#[test]
fn division_takes_the_earlier_operand_as_left() {
    assert_eq!(evaluate("8 / 2"), (InterpretResult::InterpretOK, Some(4.0)));
    assert_eq!(evaluate("2 / 8"), (InterpretResult::InterpretOK, Some(0.25)));
}

#[test]
fn multiplication_binds_tighter_than_addition() {
    assert_eq!(evaluate("2 + 3 * 4"), (InterpretResult::InterpretOK, Some(14.0)));
    assert_eq!(evaluate("(2 + 3) * 4"), (InterpretResult::InterpretOK, Some(20.0)));
}

#[test]
fn unary_minus_negates_a_group() {
    assert_eq!(evaluate("-(3 + 4)"), (InterpretResult::InterpretOK, Some(-7.0)));
}

#[test]
fn operators_group_to_the_left() {
    assert_eq!(evaluate("10 - 4 - 3"), (InterpretResult::InterpretOK, Some(3.0)));
    assert_eq!(evaluate("64 / 4 / 2"), (InterpretResult::InterpretOK, Some(8.0)));
}

#[test]
fn fractions_and_comments_are_read() {
    assert_eq!(
        evaluate("# half\n0.5 * 3 # times three\n+ 1.25"),
        (InterpretResult::InterpretOK, Some(2.75))
    );
}

#[test]
fn missing_close_paren_runs_nothing() {
    let (mut vm, diagnostic) = interpret("(1 + 2");
    assert_eq!(vm.state, State::Halted(InterpretResult::InterpretCompileError));
    assert!(vm.chunk.code.is_empty());
    assert_eq!(
        diagnostic,
        Some(Diagnostic { line: 1, place: Place::End, message: Message::ExpectRightParen })
    );
    assert_eq!(vm.run(), Action::Halt(InterpretResult::InterpretCompileError));
    assert_eq!(vm.inst_pointer, 0);
    assert!(vm.stack.is_empty());
    assert_eq!(evaluate("(1 + 2"), (InterpretResult::InterpretCompileError, None));
}

#[test]
fn compile_errors_halt_before_running() {
    for source in ["", "1 +", "@", "1 2", "\"open", ")"] {
        assert_eq!(evaluate(source), (InterpretResult::InterpretCompileError, None), "{}", source);
    }
}

#[test]
fn interpret_leaves_a_running_machine() {
    let (vm, diagnostic) = interpret("1 + 2");
    assert_eq!(diagnostic, None);
    assert_eq!(vm.state, State::Running);
    assert_eq!(vm.inst_pointer, 0);
    assert!(vm.stack.is_empty());
    assert_eq!(
        vm.chunk.code,
        vec![
            OpCode::OpConstant(Literal { start: 0, length: 1 }),
            OpCode::OpConstant(Literal { start: 4, length: 1 }),
            OpCode::OpAdd,
            OpCode::OpReturn
        ]
    );
}

#[test]
fn run_stops_at_each_action() {
    let source = "6 * -7";
    let (mut vm, _) = interpret(source);
    assert_eq!(vm.run(), Action::Load(Literal { start: 0, length: 1 }));
    assert_eq!(vm.inst_pointer, 1);
    vm.push(number(6.0));
    assert_eq!(vm.run(), Action::Load(Literal { start: 5, length: 1 }));
    vm.push(number(7.0));
    assert_eq!(vm.run(), Action::Apply(OpCode::OpMultiply, number(6.0), number(-7.0)));
    assert_eq!(vm.inst_pointer, 4);
    assert!(vm.stack.is_empty());
    assert_eq!(vm.state, State::Running);
    vm.push(number(-42.0));
    assert_eq!(vm.run(), Action::Print(number(-42.0)));
    assert_eq!(vm.state, State::Halted(InterpretResult::InterpretOK));
    assert!(vm.stack.is_empty());
    assert_eq!(vm.run(), Action::Halt(InterpretResult::InterpretOK));
}

#[test]
fn new_machine_is_ready() {
    let vm = machine(&[OpCode::OpReturn]);
    assert_eq!(vm.state, State::Ready);
    assert_eq!(vm.inst_pointer, 0);
    assert!(vm.stack.is_empty());
    assert_eq!(vm.chunk.code, vec![OpCode::OpReturn]);
    assert_eq!(vm.chunk.lines, vec![1]);
}

#[test]
fn push_and_pop_are_last_in_first_out() {
    let mut vm = machine(&[]);
    assert_eq!(vm.pop(), None);
    vm.push(number(1.0));
    vm.push(number(2.0));
    assert_eq!(vm.pop(), Some(number(2.0)));
    assert_eq!(vm.pop(), Some(number(1.0)));
    assert_eq!(vm.pop(), None);
    assert!(vm.stack.is_empty());
}

#[test]
fn return_on_an_empty_stack_is_a_runtime_error() {
    let mut vm = machine(&[OpCode::OpReturn]);
    assert_eq!(vm.run(), Action::Underflow(OpCode::OpReturn, 0));
    assert_eq!(vm.state, State::Halted(InterpretResult::InterpretRuntimeError));
    assert_eq!(vm.run(), Action::Halt(InterpretResult::InterpretRuntimeError));
}

#[test]
fn negate_on_an_empty_stack_is_a_runtime_error() {
    let mut vm = machine(&[OpCode::OpNegate, OpCode::OpReturn]);
    assert_eq!(vm.run(), Action::Underflow(OpCode::OpNegate, 0));
    assert_eq!(vm.state, State::Halted(InterpretResult::InterpretRuntimeError));
    assert_eq!(vm.inst_pointer, 1);
}

#[test]
fn binary_operator_with_one_operand_is_a_runtime_error() {
    for op in [OpCode::OpAdd, OpCode::OpSubtract, OpCode::OpMultiply, OpCode::OpDivide] {
        let mut vm = machine(&[op, OpCode::OpReturn]);
        vm.push(number(1.0));
        assert_eq!(vm.run(), Action::Underflow(op, 1));
        assert_eq!(vm.state, State::Halted(InterpretResult::InterpretRuntimeError));
        assert_eq!(vm.stack, vec![number(1.0)]);
        let mut vm = machine(&[op, OpCode::OpReturn]);
        assert_eq!(vm.run(), Action::Underflow(op, 0));
        assert!(vm.stack.is_empty());
    }
}

#[test]
fn chunk_without_return_ends_in_a_compile_error() {
    let mut vm = machine(&[OpCode::OpNegate]);
    vm.push(number(2.0));
    assert_eq!(vm.run(), Action::Halt(InterpretResult::InterpretCompileError));
    assert_eq!(vm.state, State::Halted(InterpretResult::InterpretCompileError));
    assert_eq!(vm.stack, vec![number(-2.0)]);
    let mut empty = machine(&[]);
    assert_eq!(empty.run(), Action::Halt(InterpretResult::InterpretCompileError));
}

#[test]
fn negate_replaces_the_top() {
    let mut vm = machine(&[OpCode::OpNegate, OpCode::OpNegate, OpCode::OpNegate, OpCode::OpReturn]);
    vm.push(number(4.0));
    vm.push(number(0.5));
    assert_eq!(vm.run(), Action::Print(number(-0.5)));
    assert_eq!(vm.stack, vec![number(4.0)]);
}

#[test]
fn division_by_zero_puts_both_operands_back() {
    let mut vm = machine(&[OpCode::OpDivide, OpCode::OpReturn]);
    vm.push(number(9.0));
    vm.push(number(0.0));
    assert_eq!(vm.run(), Action::DivideByZero);
    assert_eq!(vm.stack, vec![number(9.0), number(0.0)]);
    assert_eq!(vm.state, State::Running);
    assert_eq!(vm.run(), Action::Print(number(0.0)));
    assert_eq!(vm.stack, vec![number(9.0)]);
}

#[test]
fn division_by_negative_zero_is_left_undone_too() {
    let mut vm = machine(&[OpCode::OpDivide]);
    vm.push(number(1.0));
    vm.push(number(-0.0));
    assert_eq!(vm.run(), Action::DivideByZero);
    assert_eq!(vm.stack, vec![number(1.0), number(-0.0)]);
}

#[test]
fn other_operators_take_zero_as_any_number() {
    let mut vm = machine(&[OpCode::OpMultiply]);
    vm.push(number(3.0));
    vm.push(number(0.0));
    assert_eq!(vm.run(), Action::Apply(OpCode::OpMultiply, number(3.0), number(0.0)));
    assert!(vm.stack.is_empty());
    let mut vm = machine(&[OpCode::OpDivide]);
    vm.push(number(0.0));
    vm.push(number(3.0));
    assert_eq!(vm.run(), Action::Apply(OpCode::OpDivide, number(0.0), number(3.0)));
}

#[test]
fn divide_by_zero_in_a_source_prints_the_divisor() {
    let source = "7 / 0";
    let (mut vm, _) = interpret(source);
    assert_eq!(drive(&mut vm, source), (InterpretResult::InterpretOK, Some(0.0), 1));
    assert_eq!(vm.stack, vec![number(7.0)]);
}

#[test]
fn literal_that_is_not_pushed_is_missed_later() {
    let source = "1 + 2";
    let (mut vm, _) = interpret(source);
    assert_eq!(vm.run(), Action::Load(Literal { start: 0, length: 1 }));
    assert_eq!(vm.run(), Action::Load(Literal { start: 4, length: 1 }));
    vm.push(number(2.0));
    assert_eq!(vm.run(), Action::Underflow(OpCode::OpAdd, 1));
}

#[test]
fn deep_operand_stacks_are_run() {
    let mut source = String::new();
    for _ in 0..300 {
        source.push_str("(1 + ");
    }
    source.push('1');
    for _ in 0..300 {
        source.push(')');
    }
    assert_eq!(evaluate(&source), (InterpretResult::InterpretOK, Some(301.0)));
}

#[test]
fn host_is_asked_in_the_order_of_evaluation() {
    let source = "1 - 2 * 3 / 4";
    let (mut vm, _) = interpret(source);
    let mut asked = Vec::new();
    loop {
        match vm.run() {
            Action::Load(literal) => {
                let text = &source[literal.start..literal.start + literal.length];
                vm.push(number(text.parse::<f64>().unwrap()));
            }
            Action::Apply(op, lhs, rhs) => {
                let (left, right) = (f64::from_bits(lhs.bits), f64::from_bits(rhs.bits));
                asked.push((op, left, right));
                vm.push(number(match op {
                    OpCode::OpAdd => left + right,
                    OpCode::OpSubtract => left - right,
                    OpCode::OpMultiply => left * right,
                    _ => left / right,
                }));
            }
            Action::Print(value) => {
                assert_eq!(f64::from_bits(value.bits), -0.5);
                break;
            }
            other => panic!("{:?}", other),
        }
    }
    assert_eq!(
        asked,
        vec![
            (OpCode::OpMultiply, 2.0, 3.0),
            (OpCode::OpDivide, 6.0, 4.0),
            (OpCode::OpSubtract, 1.0, 1.5)
        ]
    );
    assert_eq!(vm.state, State::Halted(InterpretResult::InterpretOK));
    assert!(vm.stack.is_empty());
}
