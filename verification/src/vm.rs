//! The virtual machine: runs a chunk against an operand stack.
//!
//! The machine decides and its caller computes. [`VM::run`] executes
//! instructions until one needs what this crate does not do (reading a
//! literal as a double, arithmetic on two doubles, printing) or until the
//! machine halts, and returns the [`Action`] that is due. The caller performs
//! it, pushes the number where one came of it, and calls `run` again. What a
//! run does is the function [`run_of`] of the machine's state.

use vstd::prelude::*;
use vstd::string::StringSliceAdditionalSpecFns;
use crate::chunk::{copy_chunk, Chunk, OpCode};
use crate::compiler::{compile, compiled, fresh, literal_in, Diagnostic, Parser};
use crate::scanner::{scannable, Scanner};
use crate::value::{Literal, Value};

verus! {

/// The depth for which the operand stack is laid out. The stack grows
/// beyond it where a chunk needs more.
pub const STACK_MAX: usize = 256;

/// How an interpretation ended.
#[derive(Debug, Clone, Copy, PartialEq, Eq, Structural)]
pub enum InterpretResult {
    InterpretOK,
    InterpretCompileError,
    InterpretRuntimeError,
}

/// Where a machine stands in its life.
#[derive(Debug, Clone, Copy, PartialEq, Eq, Structural)]
pub enum State {
    /// Made, and not yet run.
    Ready,
    /// Running a chunk.
    Running,
    /// Halted, for good, with the result.
    Halted(InterpretResult),
}

/// What the caller of a machine is to do before the machine runs on.
#[derive(Debug, Clone, Copy, PartialEq, Eq, Structural)]
pub enum Action {
    /// Read the literal as a number and push it; push nothing if it cannot
    /// be read.
    Load(Literal),
    /// Apply the operator to the left and the right operand, in this order,
    /// and push what comes of it. Both have been popped.
    Apply(OpCode, Value, Value),
    /// Say that a division by zero was left undone. Both operands are back
    /// on the stack, and the machine goes on.
    DivideByZero,
    /// Print the number. The machine has halted with `InterpretOK`.
    Print(Value),
    /// Say that the instruction found too few operands on a stack of the
    /// given depth. The machine has halted with `InterpretRuntimeError`.
    Underflow(OpCode, usize),
    /// Nothing: the machine is halted, with the result.
    Halt(InterpretResult),
}

pub struct VM {
    pub chunk: Chunk,
    /// The index of the instruction to execute next.
    pub inst_pointer: usize,
    pub stack: Vec<Value>,
    pub state: State,
}

/// What running depends on and changes: the instructions, the index of the
/// next one, the operand stack with its top last, and the state.
pub struct Machine {
    pub code: Seq<OpCode>,
    pub inst_pointer: nat,
    pub stack: Seq<Value>,
    pub state: State,
}

impl View for VM {
    type V = Machine;

    open spec fn view(&self) -> Machine {
        Machine {
            code: self.chunk.code@,
            inst_pointer: self.inst_pointer as nat,
            stack: self.stack@,
            state: self.state,
        }
    }
}

/// Whether the instruction takes two operands.
pub open spec fn is_binary(op: OpCode) -> bool {
    op == OpCode::OpAdd || op == OpCode::OpSubtract || op == OpCode::OpMultiply || op
        == OpCode::OpDivide
}

/// What executing a binary operator makes of a machine: with fewer than two
/// operands the machine halts with a runtime error and the stack as it was;
/// a division by a right operand that is zero leaves both operands where they
/// are; otherwise the right operand is popped, then the left, and both are
/// handed out to be combined.
pub open spec fn binary_of(m: Machine, operator: OpCode) -> (Machine, Action) {
    let depth = m.stack.len();
    if depth < 2 {
        (
            Machine { state: State::Halted(InterpretResult::InterpretRuntimeError), ..m },
            Action::Underflow(operator, depth as usize),
        )
    } else if operator == OpCode::OpDivide && m.stack[depth - 1].zero() {
        (m, Action::DivideByZero)
    } else {
        (
            Machine { stack: m.stack.take(depth - 2), ..m },
            Action::Apply(operator, m.stack[depth - 2], m.stack[depth - 1]),
        )
    }
}

/// What a run makes of a machine, and the action it ends with.
///
/// A halted machine stays as it is. A machine with no instruction left halts
/// with a compile error: a compiled chunk ends in `OpReturn`, so its end is
/// never reached. Otherwise the instruction at the pointer is executed and
/// the pointer moved behind it: `OpConstant` hands its literal out; `OpNegate`
/// replaces the top of the stack by its negation, and the run goes on;
/// a binary operator does what [`binary_of`] says; `OpReturn` pops the top,
/// hands it out to be printed and halts the machine. An instruction that
/// finds too few operands halts the machine with a runtime error.
pub open spec fn run_of(m: Machine) -> (Machine, Action)
    decreases m.code.len() - m.inst_pointer,
{
    if let State::Halted(result) = m.state {
        (m, Action::Halt(result))
    } else if m.inst_pointer >= m.code.len() {
        (
            Machine { state: State::Halted(InterpretResult::InterpretCompileError), ..m },
            Action::Halt(InterpretResult::InterpretCompileError),
        )
    } else {
        let op = m.code[m.inst_pointer as int];
        let depth = m.stack.len();
        let next = Machine {
            inst_pointer: m.inst_pointer + 1,
            state: State::Running,
            ..m
        };
        match op {
            OpCode::OpConstant(literal) => (next, Action::Load(literal)),
            OpCode::OpReturn => {
                if depth == 0 {
                    (
                        Machine {
                            state: State::Halted(InterpretResult::InterpretRuntimeError),
                            ..next
                        },
                        Action::Underflow(op, 0),
                    )
                } else {
                    (
                        Machine {
                            stack: m.stack.drop_last(),
                            state: State::Halted(InterpretResult::InterpretOK),
                            ..next
                        },
                        Action::Print(m.stack.last()),
                    )
                }
            },
            OpCode::OpNegate => {
                if depth == 0 {
                    (
                        Machine {
                            state: State::Halted(InterpretResult::InterpretRuntimeError),
                            ..next
                        },
                        Action::Underflow(op, 0),
                    )
                } else {
                    run_of(
                        Machine {
                            stack: m.stack.drop_last().push(m.stack.last().negated()),
                            ..next
                        },
                    )
                }
            },
            _ => binary_of(next, op),
        }
    }
}

impl VM {
    /// A machine for a copy of the chunk: ready, at the first instruction,
    /// with an empty stack.
    pub fn init_vm(chunk: &Chunk) -> (vm: VM)
        requires
            chunk.wf(),
        ensures
            vm.chunk.wf(),
            vm@ == (Machine {
                code: chunk.code@,
                inst_pointer: 0,
                stack: Seq::<Value>::empty(),
                state: State::Ready,
            }),
            vm.chunk.lines@ == chunk.lines@,
            vm.chunk.constants@ == chunk.constants@,
    {
        VM {
            chunk: copy_chunk(chunk),
            inst_pointer: 0,
            stack: Vec::with_capacity(STACK_MAX),
            state: State::Ready,
        }
    }

    /// Takes the top of the stack off, if the stack holds anything.
    pub fn pop(&mut self) -> (top: Option<Value>)
        ensures
            old(self).stack@.len() == 0 ==> top is None && final(self)@ == old(self)@,
            old(self).stack@.len() > 0 ==> top == Some(old(self).stack@.last()) && final(self)@ == (
            Machine { stack: old(self).stack@.drop_last(), ..old(self)@ }),
            final(self).chunk == old(self).chunk,
    {
        self.stack.pop()
    }

    /// Puts the number on top of the stack.
    pub fn push(&mut self, value: Value)
        ensures
            final(self)@ == (Machine { stack: old(self).stack@.push(value), ..old(self)@ }),
            final(self).chunk == old(self).chunk,
    {
        self.stack.push(value);
    }

    /// Runs the machine up to the next action that is due.
    pub fn run(&mut self) -> (action: Action)
        ensures
            (final(self)@, action) == run_of(old(self)@),
            final(self).chunk == old(self).chunk,
    {
        run(self)
    }
}

/// Executes a binary operator.
fn binary_solver(vm: &mut VM, operator: OpCode) -> (action: Action)
    ensures
        (final(vm)@, action) == binary_of(old(vm)@, operator),
        final(vm).chunk == old(vm).chunk,
{
    let a = match vm.pop() {
        Some(value) => value,
        None => {
            vm.state = State::Halted(InterpretResult::InterpretRuntimeError);
            return Action::Underflow(operator, 0);
        },
    };
    let b = match vm.pop() {
        Some(value) => value,
        None => {
            vm.push(a);
            assert(vm.stack@ == old(vm).stack@);
            vm.state = State::Halted(InterpretResult::InterpretRuntimeError);
            return Action::Underflow(operator, 1);
        },
    };
    assert(vm.stack@ == old(vm).stack@.take(old(vm).stack@.len() - 2));
    if operator == OpCode::OpDivide && a.is_zero() {
        vm.push(b);
        vm.push(a);
        assert(vm.stack@ == old(vm).stack@);
        return Action::DivideByZero;
    }
    Action::Apply(operator, b, a)
}

fn run(vm: &mut VM) -> (action: Action)
    ensures
        (final(vm)@, action) == run_of(old(vm)@),
        final(vm).chunk == old(vm).chunk,
{
    match vm.state {
        State::Halted(result) => {
            return Action::Halt(result);
        },
        _ => {},
    }
    while vm.inst_pointer < vm.chunk.code.len()
        invariant
            !(vm.state is Halted),
            run_of(vm@) == run_of(old(vm)@),
            vm.chunk == old(vm).chunk,
        decreases vm.chunk.code@.len() - vm.inst_pointer,
    {
        let op_code = vm.chunk.code[vm.inst_pointer];
        vm.inst_pointer += 1;
        vm.state = State::Running;
        match op_code {
            OpCode::OpReturn => {
                match vm.pop() {
                    Some(value) => {
                        vm.state = State::Halted(InterpretResult::InterpretOK);
                        return Action::Print(value);
                    },
                    None => {
                        vm.state = State::Halted(InterpretResult::InterpretRuntimeError);
                        return Action::Underflow(op_code, 0);
                    },
                }
            },
            OpCode::OpNegate => {
                match vm.pop() {
                    Some(neg) => {
                        vm.push(neg.negate());
                    },
                    None => {
                        vm.state = State::Halted(InterpretResult::InterpretRuntimeError);
                        return Action::Underflow(op_code, 0);
                    },
                }
            },
            OpCode::OpAdd => {
                return binary_solver(vm, op_code);
            },
            OpCode::OpSubtract => {
                return binary_solver(vm, op_code);
            },
            OpCode::OpMultiply => {
                return binary_solver(vm, op_code);
            },
            OpCode::OpDivide => {
                return binary_solver(vm, op_code);
            },
            OpCode::OpConstant(x) => {
                return Action::Load(x);
            },
        }
    }
    vm.state = State::Halted(InterpretResult::InterpretCompileError);
    Action::Halt(InterpretResult::InterpretCompileError)
}


/// Begins the interpretation of a source: compiles it into an empty chunk
/// and makes the machine that is to run the chunk.
///
/// Where the compilation recorded an error, the machine is halted with
/// `InterpretCompileError` and holds no instruction: nothing of a chunk that
/// failed to compile is ever executed. Otherwise the machine holds the
/// compiled chunk and is running, at the first instruction, with an empty
/// stack; its caller goes on with [`VM::run`]. The diagnostic of the
/// compilation, if there is one, comes back beside the machine. Every
/// literal that the machine will hand out is a numeral that lies in the
/// source.
pub fn interpret(source: &str) -> (begun: (VM, Option<Diagnostic>))
    requires
        scannable(source.spec_bytes()),
    ensures
        begun.0.chunk.wf(),
        forall|i: int|
            0 <= i < begun.0@.code.len() ==> (#[trigger] begun.0@.code[i] matches OpCode::OpConstant(
                literal,
            ) ==> literal_in(source.spec_bytes(), literal)),
        begun.1 == compiled(source.spec_bytes(), fresh()).parser.diagnostic,
        begun.0@ == if compiled(source.spec_bytes(), fresh()).parser.had_error {
            Machine {
                code: Seq::empty(),
                inst_pointer: 0,
                stack: Seq::empty(),
                state: State::Halted(InterpretResult::InterpretCompileError),
            }
        } else {
            Machine {
                code: compiled(source.spec_bytes(), fresh()).code,
                inst_pointer: 0,
                stack: Seq::empty(),
                state: State::Running,
            }
        },
{
    let mut chunk = Chunk::init_chunk();
    let mut vm = VM::init_vm(&chunk);
    let mut scanner = Scanner::init_scanner();
    let mut parser = Parser::init_parser();
    if !compile(source, &mut chunk, &mut parser, &mut scanner) {
        vm.state = State::Halted(InterpretResult::InterpretCompileError);
        return (vm, parser.diagnostic);
    }
    vm.chunk = chunk;
    vm.inst_pointer = 0;
    vm.state = State::Running;
    (vm, parser.diagnostic)
}

} // verus!
