//! What an expression means, and the law that the machine computes it.
//!
//! The machine leaves reading and arithmetic to its host. A [`Host`] says
//! what the host answers: the number it reads a literal as, and the number
//! an operator makes of two. [`driven`] is the machine run to its end by
//! such a host, and [`Expression::value`] the value of an expression under
//! it. The two agree for every host, so whatever the host's arithmetic is,
//! the machine applies it to the right operands in the right order.

use vstd::prelude::*;
use crate::chunk::OpCode;
use crate::compiler::{binary_op, compiled, fresh, literal_of};
use crate::grammar::{law_expression_compiles, Expression, Factors, Operand, Term, Terms};
use crate::scanner::{nth_token, scannable, TokenKind};
use crate::value::{Literal, Value};
use crate::vm::{binary_of, run_of, Action, InterpretResult, Machine, State};

verus! {

/// What the host of a machine answers.
pub struct Host {
    /// The number that a literal is read as.
    pub read: spec_fn(Literal) -> Value,
    /// The number that an operator makes of a left and a right operand.
    pub apply: spec_fn(OpCode, Value, Value) -> Value,
}

/// Whether the machine goes on once the action is done.
pub open spec fn goes_on(action: Action) -> bool {
    action is Load || action is Apply || action is DivideByZero
}

/// The machine after its host has done what the action asks: the number
/// read, or the number computed, is on top of the stack.
pub open spec fn answered(host: Host, m: Machine, action: Action) -> Machine {
    match action {
        Action::Load(literal) => Machine { stack: m.stack.push((host.read)(literal)), ..m },
        Action::Apply(operator, left, right) => Machine {
            stack: m.stack.push((host.apply)(operator, left, right)),
            ..m
        },
        _ => m,
    }
}

/// The instructions that are left to execute.
pub open spec fn left_to_run(m: Machine) -> nat {
    if m.inst_pointer <= m.code.len() {
        (m.code.len() - m.inst_pointer) as nat
    } else {
        0
    }
}

/// The machine run to its end by the host: the machine runs, the host
/// answers, and so on until an action that halts the machine.
pub open spec fn driven(host: Host, m: Machine) -> (Machine, Action)
    decreases left_to_run(m),
{
    let (next, action) = run_of(m);
    if goes_on(action) && left_to_run(answered(host, next, action)) < left_to_run(m) {
        driven(host, answered(host, next, action))
    } else {
        (next, action)
    }
}

impl Operand {
    /// The value of the operand under the host.
    pub open spec fn value(self, src: Seq<u8>, at: nat, host: Host) -> Value
        decreases self,
    {
        match self {
            Operand::Number => (host.read)(literal_of(nth_token(src, at))),
            Operand::Negated(operand) => operand.value(src, at + 1, host).negated(),
            Operand::Group(expression) => expression.value(src, at + 1, host),
        }
    }

    /// Whether no division in the operand is by zero.
    pub open spec fn defined(self, src: Seq<u8>, at: nat, host: Host) -> bool
        decreases self,
    {
        match self {
            Operand::Number => true,
            Operand::Negated(operand) => operand.defined(src, at + 1, host),
            Operand::Group(expression) => expression.defined(src, at + 1, host),
        }
    }
}

impl Factors {
    /// The value of the factors applied to the value left of them, one
    /// after the other.
    pub open spec fn applied(self, src: Seq<u8>, at: nat, host: Host, left: Value) -> Value
        decreases self,
    {
        match self {
            Factors::End => left,
            Factors::More(operator, operand, rest) => rest.applied(
                src,
                at + 1 + operand.tokens(),
                host,
                (host.apply)(binary_op(operator)->0, left, operand.value(src, at + 1, host)),
            ),
        }
    }

    /// Whether no division among the factors is by zero.
    pub open spec fn defined(self, src: Seq<u8>, at: nat, host: Host) -> bool
        decreases self,
    {
        match self {
            Factors::End => true,
            Factors::More(operator, operand, rest) => {
                &&& operand.defined(src, at + 1, host)
                &&& !(operator == TokenKind::TokenSlash && operand.value(src, at + 1, host).zero())
                &&& rest.defined(src, at + 1 + operand.tokens(), host)
            },
        }
    }
}

impl Term {
    /// The value of the term under the host.
    pub open spec fn value(self, src: Seq<u8>, at: nat, host: Host) -> Value
        decreases self,
    {
        self.rest.applied(src, at + self.first.tokens(), host, self.first.value(src, at, host))
    }

    /// Whether no division in the term is by zero.
    pub open spec fn defined(self, src: Seq<u8>, at: nat, host: Host) -> bool
        decreases self,
    {
        self.first.defined(src, at, host) && self.rest.defined(
            src,
            at + self.first.tokens(),
            host,
        )
    }
}

impl Terms {
    /// The value of the terms applied to the value left of them, one after
    /// the other.
    pub open spec fn applied(self, src: Seq<u8>, at: nat, host: Host, left: Value) -> Value
        decreases self,
    {
        match self {
            Terms::End => left,
            Terms::More(operator, term, rest) => rest.applied(
                src,
                at + 1 + term.tokens(),
                host,
                (host.apply)(binary_op(operator)->0, left, term.value(src, at + 1, host)),
            ),
        }
    }

    /// Whether no division among the terms is by zero.
    pub open spec fn defined(self, src: Seq<u8>, at: nat, host: Host) -> bool
        decreases self,
    {
        match self {
            Terms::End => true,
            Terms::More(_, term, rest) => {
                &&& term.defined(src, at + 1, host)
                &&& rest.defined(src, at + 1 + term.tokens(), host)
            },
        }
    }
}

impl Expression {
    /// The value of the expression under the host.
    pub open spec fn value(self, src: Seq<u8>, at: nat, host: Host) -> Value
        decreases self,
    {
        self.rest.applied(src, at + self.first.tokens(), host, self.first.value(src, at, host))
    }

    /// Whether no division in the expression is by zero.
    pub open spec fn defined(self, src: Seq<u8>, at: nat, host: Host) -> bool
        decreases self,
    {
        self.first.defined(src, at, host) && self.rest.defined(
            src,
            at + self.first.tokens(),
            host,
        )
    }
}

/// Whether the code holds the instructions from `from` on.
#[verifier::opaque]
pub open spec fn holds(code: Seq<OpCode>, from: nat, instructions: Seq<OpCode>) -> bool {
    &&& from + instructions.len() <= code.len()
    &&& forall|i: int|
        0 <= i < instructions.len() ==> code[from + i] == #[trigger] instructions[i]
}

/// The running machine with the given stack at the given instruction.
pub open spec fn running(code: Seq<OpCode>, at: nat, stack: Seq<Value>) -> Machine {
    Machine { code, inst_pointer: at, stack, state: State::Running }
}

proof fn lemma_holds_both(code: Seq<OpCode>, from: nat, first: Seq<OpCode>, second: Seq<OpCode>)
    requires
        holds(code, from, first + second),
    ensures
        holds(code, from, first),
        holds(code, from + first.len(), second),
{
    reveal(holds);
    let both = first + second;
    assert forall|i: int| 0 <= i < first.len() implies code[from + i] == #[trigger] first[i] by {
        assert(both[i] == first[i]);
    }
    assert forall|i: int| 0 <= i < second.len() implies code[from + first.len() + i]
        == #[trigger] second[i] by {
        assert(both[first.len() + i] == second[i]);
    }
}

proof fn lemma_holds_last(code: Seq<OpCode>, from: nat, first: Seq<OpCode>, last: OpCode)
    requires
        holds(code, from, first.push(last)),
    ensures
        holds(code, from, first),
        from + first.len() < code.len(),
        code[(from + first.len()) as int] == last,
{
    reveal(holds);
    let both = first.push(last);
    assert forall|i: int| 0 <= i < first.len() implies code[from + i] == #[trigger] first[i] by {
        assert(both[i] == first[i]);
    }
    assert(both[first.len() as int] == last);
}

/// A machine driven from a state that a run passes through ends as the
/// machine driven from the start of the run.
proof fn lemma_passes(host: Host, m: Machine, through: Machine)
    requires
        !(m.state is Halted),
        !(through.state is Halted),
        m.code == through.code,
        m.inst_pointer < through.inst_pointer,
        run_of(m) == run_of(through),
    ensures
        driven(host, m) == driven(host, through),
{
    let (next, action) = run_of(m);
    if goes_on(action) {
        lemma_run_moves(through);
    }
}

/// A run of a machine that is not halted moves the pointer on, and never
/// past the end of the code, which it leaves as it is.
proof fn lemma_run_moves(m: Machine)
    requires
        !(m.state is Halted),
    ensures
        run_of(m).0.code == m.code,
        goes_on(run_of(m).1) ==> m.inst_pointer < run_of(m).0.inst_pointer <= m.code.len(),
    decreases m.code.len() - m.inst_pointer,
{
    if m.inst_pointer < m.code.len() {
        let next = Machine {
            inst_pointer: m.inst_pointer + 1,
            state: State::Running,
            ..m
        };
        if m.code[m.inst_pointer as int] == OpCode::OpNegate && m.stack.len() > 0 {
            lemma_run_moves(
                Machine { stack: m.stack.drop_last().push(m.stack.last().negated()), ..next },
            );
        }
    }
}

/// An instruction that loads a literal takes the machine one instruction
/// on, with the number read on the stack.
proof fn lemma_load(host: Host, m: Machine, literal: Literal)
    requires
        !(m.state is Halted),
        m.inst_pointer < m.code.len(),
        m.code[m.inst_pointer as int] == OpCode::OpConstant(literal),
    ensures
        driven(host, m) == driven(
            host,
            running(m.code, m.inst_pointer + 1, m.stack.push((host.read)(literal))),
        ),
{
}

/// A negation takes the machine one instruction on, with the top of the
/// stack negated.
proof fn lemma_negate(host: Host, m: Machine, below: Seq<Value>, top: Value)
    requires
        !(m.state is Halted),
        m.inst_pointer < m.code.len(),
        m.code[m.inst_pointer as int] == OpCode::OpNegate,
        m.stack == below.push(top),
    ensures
        driven(host, m) == driven(
            host,
            running(m.code, m.inst_pointer + 1, below.push(top.negated())),
        ),
{
    let through = running(m.code, m.inst_pointer + 1, below.push(top.negated()));
    assert(m.stack.drop_last().push(m.stack.last().negated()) =~= below.push(top.negated()));
    lemma_passes(host, m, through);
}

/// A binary operator that is no division by zero takes the machine one
/// instruction on, with what the host makes of the two numbers on top of
/// the stack in their place: the lower one is the left operand.
proof fn lemma_apply(
    host: Host,
    m: Machine,
    operator: TokenKind,
    below: Seq<Value>,
    left: Value,
    right: Value,
)
    requires
        !(m.state is Halted),
        binary_op(operator) is Some,
        m.inst_pointer < m.code.len(),
        m.code[m.inst_pointer as int] == binary_op(operator)->0,
        m.stack == below.push(left).push(right),
        !(operator == TokenKind::TokenSlash && right.zero()),
    ensures
        driven(host, m) == driven(
            host,
            running(
                m.code,
                m.inst_pointer + 1,
                below.push((host.apply)(binary_op(operator)->0, left, right)),
            ),
        ),
{
    let op = binary_op(operator)->0;
    let next = Machine { inst_pointer: m.inst_pointer + 1, state: State::Running, ..m };
    assert(m.stack.take(m.stack.len() - 2) =~= below);
    assert(run_of(m) == binary_of(next, op));
    assert(run_of(m) == (Machine { stack: below, ..next }, Action::Apply(op, left, right)));
}

proof fn lemma_run_operand(
    host: Host,
    src: Seq<u8>,
    at: nat,
    operand: Operand,
    m: Machine,
)
    requires
        !(m.state is Halted),
        operand.spelled(src, at),
        holds(m.code, m.inst_pointer, operand.code(src, at)),
        operand.defined(src, at, host),
    ensures
        driven(host, m) == driven(
            host,
            running(
                m.code,
                m.inst_pointer + operand.code(src, at).len(),
                m.stack.push(operand.value(src, at, host)),
            ),
        ),
    decreases operand,
{
    match operand {
        Operand::Number => {
            let literal = literal_of(nth_token(src, at));
            lemma_holds_last(m.code, m.inst_pointer, Seq::empty(), OpCode::OpConstant(literal));
            assert(Seq::<OpCode>::empty().push(OpCode::OpConstant(literal)) =~= operand.code(
                src,
                at,
            ));
            lemma_load(host, m, literal);
        },
        Operand::Negated(inner) => {
            let code = inner.code(src, at + 1);
            lemma_holds_last(m.code, m.inst_pointer, code, OpCode::OpNegate);
            lemma_run_operand(host, src, at + 1, *inner, m);
            let after = running(
                m.code,
                m.inst_pointer + code.len(),
                m.stack.push(inner.value(src, at + 1, host)),
            );
            lemma_negate(host, after, m.stack, inner.value(src, at + 1, host));
        },
        Operand::Group(inner) => {
            lemma_run_expression(host, src, at + 1, *inner, m);
        },
    }
}

proof fn lemma_run_factors(
    host: Host,
    src: Seq<u8>,
    at: nat,
    factors: Factors,
    m: Machine,
    below: Seq<Value>,
    left: Value,
)
    requires
        !(m.state is Halted),
        factors.spelled(src, at),
        holds(m.code, m.inst_pointer, factors.code(src, at)),
        factors.defined(src, at, host),
        m.stack == below.push(left),
    ensures
        driven(host, m) == driven(
            host,
            running(
                m.code,
                m.inst_pointer + factors.code(src, at).len(),
                below.push(factors.applied(src, at, host, left)),
            ),
        ),
    decreases factors,
{
    match factors {
        Factors::End => {
            lemma_same(host, m);
        },
        Factors::More(operator, operand, rest) => {
            let op = binary_op(operator)->0;
            let first = operand.code(src, at + 1);
            let right = operand.value(src, at + 1, host);
            let behind = at + 1 + operand.tokens();
            lemma_holds_both(m.code, m.inst_pointer, first.push(op), rest.code(src, behind));
            lemma_holds_last(m.code, m.inst_pointer, first, op);
            lemma_run_operand(host, src, at + 1, *operand, m);
            let loaded = running(m.code, m.inst_pointer + first.len(), m.stack.push(right));
            lemma_apply(host, loaded, operator, below, left, right);
            let applied = running(
                m.code,
                m.inst_pointer + first.len() + 1,
                below.push((host.apply)(op, left, right)),
            );
            lemma_run_factors(
                host,
                src,
                behind,
                *rest,
                applied,
                below,
                (host.apply)(op, left, right),
            );
        },
    }
}

/// A machine that is not halted is driven as the running machine in the
/// same place.
proof fn lemma_same(host: Host, m: Machine)
    requires
        !(m.state is Halted),
    ensures
        driven(host, m) == driven(host, running(m.code, m.inst_pointer, m.stack)),
{
    let through = running(m.code, m.inst_pointer, m.stack);
    assert(run_of(m) == run_of(through));
}

proof fn lemma_run_term(host: Host, src: Seq<u8>, at: nat, term: Term, m: Machine)
    requires
        !(m.state is Halted),
        term.spelled(src, at),
        holds(m.code, m.inst_pointer, term.code(src, at)),
        term.defined(src, at, host),
    ensures
        driven(host, m) == driven(
            host,
            running(
                m.code,
                m.inst_pointer + term.code(src, at).len(),
                m.stack.push(term.value(src, at, host)),
            ),
        ),
    decreases term,
{
    let first = term.first.code(src, at);
    lemma_holds_both(m.code, m.inst_pointer, first, term.rest.code(src, at + term.first.tokens()));
    lemma_run_operand(host, src, at, term.first, m);
    let loaded = running(
        m.code,
        m.inst_pointer + first.len(),
        m.stack.push(term.first.value(src, at, host)),
    );
    lemma_run_factors(
        host,
        src,
        at + term.first.tokens(),
        term.rest,
        loaded,
        m.stack,
        term.first.value(src, at, host),
    );
}

proof fn lemma_run_terms(
    host: Host,
    src: Seq<u8>,
    at: nat,
    terms: Terms,
    m: Machine,
    below: Seq<Value>,
    left: Value,
)
    requires
        !(m.state is Halted),
        terms.spelled(src, at),
        holds(m.code, m.inst_pointer, terms.code(src, at)),
        terms.defined(src, at, host),
        m.stack == below.push(left),
    ensures
        driven(host, m) == driven(
            host,
            running(
                m.code,
                m.inst_pointer + terms.code(src, at).len(),
                below.push(terms.applied(src, at, host, left)),
            ),
        ),
    decreases terms,
{
    match terms {
        Terms::End => {
            lemma_same(host, m);
        },
        Terms::More(operator, term, rest) => {
            let op = binary_op(operator)->0;
            let first = term.code(src, at + 1);
            let right = term.value(src, at + 1, host);
            let behind = at + 1 + term.tokens();
            lemma_holds_both(m.code, m.inst_pointer, first.push(op), rest.code(src, behind));
            lemma_holds_last(m.code, m.inst_pointer, first, op);
            lemma_run_term(host, src, at + 1, *term, m);
            let loaded = running(m.code, m.inst_pointer + first.len(), m.stack.push(right));
            lemma_apply(host, loaded, operator, below, left, right);
            let applied = running(
                m.code,
                m.inst_pointer + first.len() + 1,
                below.push((host.apply)(op, left, right)),
            );
            lemma_run_terms(
                host,
                src,
                behind,
                *rest,
                applied,
                below,
                (host.apply)(op, left, right),
            );
        },
    }
}

proof fn lemma_run_expression(
    host: Host,
    src: Seq<u8>,
    at: nat,
    expression: Expression,
    m: Machine,
)
    requires
        !(m.state is Halted),
        expression.spelled(src, at),
        holds(m.code, m.inst_pointer, expression.code(src, at)),
        expression.defined(src, at, host),
    ensures
        driven(host, m) == driven(
            host,
            running(
                m.code,
                m.inst_pointer + expression.code(src, at).len(),
                m.stack.push(expression.value(src, at, host)),
            ),
        ),
    decreases expression,
{
    let first = expression.first.code(src, at);
    lemma_holds_both(
        m.code,
        m.inst_pointer,
        first,
        expression.rest.code(src, at + expression.first.tokens()),
    );
    lemma_run_term(host, src, at, expression.first, m);
    let loaded = running(
        m.code,
        m.inst_pointer + first.len(),
        m.stack.push(expression.first.value(src, at, host)),
    );
    lemma_run_terms(
        host,
        src,
        at + expression.first.tokens(),
        expression.rest,
        loaded,
        m.stack,
        expression.first.value(src, at, host),
    );
}

/// The machine computes the value of the expression it runs.
///
/// Take the instructions of an expression with the final `OpReturn` behind
/// them, a machine at their start with an empty stack, and a host that
/// answers every action. If no division in the expression is by zero, the
/// machine halts with `InterpretOK`, the stack empty again, and the number it
/// hands out to be printed is the value of the expression: every operator
/// applied to its left and its right operand, in this order, `*` and `/`
/// before `+` and `-`, operators of one level from left to right.
pub proof fn law_machine_computes_value(
    host: Host,
    src: Seq<u8>,
    expression: Expression,
    state: State,
)
    requires
        expression.spelled(src, 0),
        expression.defined(src, 0, host),
        !(state is Halted),
    ensures
        driven(
            host,
            Machine {
                code: expression.code(src, 0).push(OpCode::OpReturn),
                inst_pointer: 0,
                stack: Seq::empty(),
                state,
            },
        ) == (
            Machine {
                code: expression.code(src, 0).push(OpCode::OpReturn),
                inst_pointer: expression.code(src, 0).len() + 1,
                stack: Seq::empty(),
                state: State::Halted(InterpretResult::InterpretOK),
            },
            Action::Print(expression.value(src, 0, host)),
        ),
{
    let code = expression.code(src, 0).push(OpCode::OpReturn);
    let m = Machine { code, inst_pointer: 0, stack: Seq::empty(), state };
    assert(holds(code, 0, expression.code(src, 0).push(OpCode::OpReturn))) by {
        reveal(holds);
    }
    lemma_holds_last(code, 0, expression.code(src, 0), OpCode::OpReturn);
    lemma_run_expression(host, src, 0, expression, m);
    let value = expression.value(src, 0, host);
    let end = running(code, expression.code(src, 0).len(), Seq::<Value>::empty().push(value));
    assert(end.stack.drop_last() =~= Seq::<Value>::empty());
}

/// Interpreting a well-formed expression computes its value.
///
/// If the tokens of a source spell an expression, the end of the input
/// follows it, and no division in it is by zero, then the source compiles
/// without error, and the machine that runs what was compiled, driven by a
/// host that answers every action, halts with `InterpretOK` and hands out the
/// value of the expression to be printed.
pub proof fn law_interpretation_computes_value(host: Host, src: Seq<u8>, expression: Expression)
    requires
        scannable(src),
        expression.spelled(src, 0),
        nth_token(src, expression.tokens()).kind == TokenKind::TokenEof,
        expression.defined(src, 0, host),
    ensures
        !compiled(src, fresh()).parser.had_error,
        driven(
            host,
            Machine {
                code: compiled(src, fresh()).code,
                inst_pointer: 0,
                stack: Seq::empty(),
                state: State::Running,
            },
        ).1 == Action::Print(expression.value(src, 0, host)),
        driven(
            host,
            Machine {
                code: compiled(src, fresh()).code,
                inst_pointer: 0,
                stack: Seq::empty(),
                state: State::Running,
            },
        ).0.state == State::Halted(InterpretResult::InterpretOK),
{
    law_expression_compiles(src, expression);
    law_machine_computes_value(host, src, expression, State::Running);
}

} // verus!
