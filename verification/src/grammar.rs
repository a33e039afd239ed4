//! Well-formed expressions, and the law that each of them compiles to its
//! postfix form.
//!
//! The grammar is the usual one. An expression is a term followed by any
//! number of `+` or `-`, each with its term; a term is an operand followed by
//! any number of `*` or `/`, each with its operand; an operand is a number, a
//! negated operand, or an expression in parentheses. [`Expression::spelled`]
//! says when the tokens of a source spell an expression, and
//! [`Expression::code`] what the expression means as instructions: operands
//! first, operator last, operators of one level from left to right.

use vstd::prelude::*;
use crate::chunk::OpCode;
use crate::compiler::{
    advanced, at_end, binary_op, binary_parsed, compiled, consumed, emitted, expression_parsed,
    fetched, fresh, grouping_parsed, infix_parsed, literal_of, parsed, prefixed, remaining,
    rule_of, unary_parsed, Compilation, Message, ParseFn, Parser, PREC_ASSIGNMENT, PREC_FACTOR,
    PREC_UNARY,
};
use crate::scanner::{
    cursor_after, lemma_cursor_after_bounds, nth_token, scannable, scanner_after, token_at,
    TokenKind,
};

verus! {

/// What an operator applies to.
pub enum Operand {
    /// A numeric literal.
    Number,
    /// `-` and the operand it negates.
    Negated(Box<Operand>),
    /// `(`, an expression, and `)`.
    Group(Box<Expression>),
}

/// What follows the first operand of a term: nothing, or `*` or `/`, its
/// right operand, and what follows that.
pub enum Factors {
    End,
    More(TokenKind, Box<Operand>, Box<Factors>),
}

/// An operand and the factors that follow it.
pub struct Term {
    pub first: Operand,
    pub rest: Factors,
}

/// What follows the first term of an expression: nothing, or `+` or `-`,
/// the term to its right, and what follows that.
pub enum Terms {
    End,
    More(TokenKind, Box<Term>, Box<Terms>),
}

/// A term and the terms that follow it.
pub struct Expression {
    pub first: Term,
    pub rest: Terms,
}

/// Whether the token is `*` or `/`.
pub open spec fn is_factor_operator(kind: TokenKind) -> bool {
    kind == TokenKind::TokenStar || kind == TokenKind::TokenSlash
}

/// Whether the token is `+` or `-`.
pub open spec fn is_term_operator(kind: TokenKind) -> bool {
    kind == TokenKind::TokenPlus || kind == TokenKind::TokenMinus
}

impl Operand {
    /// The number of tokens.
    pub open spec fn tokens(self) -> nat
        decreases self,
    {
        match self {
            Operand::Number => 1,
            Operand::Negated(operand) => 1 + operand.tokens(),
            Operand::Group(expression) => 2 + expression.tokens(),
        }
    }

    /// The number of numeric literals.
    pub open spec fn literals(self) -> nat
        decreases self,
    {
        match self {
            Operand::Number => 1,
            Operand::Negated(operand) => operand.literals(),
            Operand::Group(expression) => expression.literals(),
        }
    }

    /// The number of operators, unary and binary.
    pub open spec fn operators(self) -> nat
        decreases self,
    {
        match self {
            Operand::Number => 0,
            Operand::Negated(operand) => 1 + operand.operators(),
            Operand::Group(expression) => expression.operators(),
        }
    }

    /// Whether the tokens of the source, from the one that `at` others come
    /// before, spell this operand.
    pub open spec fn spelled(self, src: Seq<u8>, at: nat) -> bool
        decreases self,
    {
        match self {
            Operand::Number => nth_token(src, at).kind == TokenKind::TokenNumber,
            Operand::Negated(operand) => {
                &&& nth_token(src, at).kind == TokenKind::TokenMinus
                &&& operand.spelled(src, at + 1)
            },
            Operand::Group(expression) => {
                &&& nth_token(src, at).kind == TokenKind::TokenLeftParen
                &&& expression.spelled(src, at + 1)
                &&& nth_token(src, at + 1 + expression.tokens()).kind
                    == TokenKind::TokenRightParen
            },
        }
    }

    /// The instructions that leave the operand's value on the stack: the
    /// literal is loaded, the negated operand is computed and then negated,
    /// and a group is its expression.
    pub open spec fn code(self, src: Seq<u8>, at: nat) -> Seq<OpCode>
        decreases self,
    {
        match self {
            Operand::Number => seq![OpCode::OpConstant(literal_of(nth_token(src, at)))],
            Operand::Negated(operand) => operand.code(src, at + 1).push(OpCode::OpNegate),
            Operand::Group(expression) => expression.code(src, at + 1),
        }
    }
}

impl Factors {
    /// The number of tokens.
    pub open spec fn tokens(self) -> nat
        decreases self,
    {
        match self {
            Factors::End => 0,
            Factors::More(_, operand, rest) => 1 + operand.tokens() + rest.tokens(),
        }
    }

    /// The number of numeric literals.
    pub open spec fn literals(self) -> nat
        decreases self,
    {
        match self {
            Factors::End => 0,
            Factors::More(_, operand, rest) => operand.literals() + rest.literals(),
        }
    }

    /// The number of operators, unary and binary.
    pub open spec fn operators(self) -> nat
        decreases self,
    {
        match self {
            Factors::End => 0,
            Factors::More(_, operand, rest) => 1 + operand.operators() + rest.operators(),
        }
    }

    /// Whether the tokens of the source, from the one that `at` others come
    /// before, spell these factors.
    pub open spec fn spelled(self, src: Seq<u8>, at: nat) -> bool
        decreases self,
    {
        match self {
            Factors::End => true,
            Factors::More(operator, operand, rest) => {
                &&& is_factor_operator(operator)
                &&& nth_token(src, at).kind == operator
                &&& operand.spelled(src, at + 1)
                &&& rest.spelled(src, at + 1 + operand.tokens())
            },
        }
    }

    /// The instructions that apply the factors, one after the other, to the
    /// value on the stack: each right operand, then its operator.
    pub open spec fn code(self, src: Seq<u8>, at: nat) -> Seq<OpCode>
        decreases self,
    {
        match self {
            Factors::End => Seq::empty(),
            Factors::More(operator, operand, rest) => operand.code(src, at + 1).push(
                binary_op(operator)->0,
            ) + rest.code(src, at + 1 + operand.tokens()),
        }
    }
}

impl Term {
    /// The number of tokens.
    pub open spec fn tokens(self) -> nat
        decreases self,
    {
        self.first.tokens() + self.rest.tokens()
    }

    /// The number of numeric literals.
    pub open spec fn literals(self) -> nat
        decreases self,
    {
        self.first.literals() + self.rest.literals()
    }

    /// The number of operators, unary and binary.
    pub open spec fn operators(self) -> nat
        decreases self,
    {
        self.first.operators() + self.rest.operators()
    }

    /// Whether the tokens of the source, from the one that `at` others come
    /// before, spell this term.
    pub open spec fn spelled(self, src: Seq<u8>, at: nat) -> bool
        decreases self,
    {
        self.first.spelled(src, at) && self.rest.spelled(src, at + self.first.tokens())
    }

    /// The instructions that leave the term's value on the stack.
    pub open spec fn code(self, src: Seq<u8>, at: nat) -> Seq<OpCode>
        decreases self,
    {
        self.first.code(src, at) + self.rest.code(src, at + self.first.tokens())
    }
}

impl Terms {
    /// The number of tokens.
    pub open spec fn tokens(self) -> nat
        decreases self,
    {
        match self {
            Terms::End => 0,
            Terms::More(_, term, rest) => 1 + term.tokens() + rest.tokens(),
        }
    }

    /// The number of numeric literals.
    pub open spec fn literals(self) -> nat
        decreases self,
    {
        match self {
            Terms::End => 0,
            Terms::More(_, term, rest) => term.literals() + rest.literals(),
        }
    }

    /// The number of operators, unary and binary.
    pub open spec fn operators(self) -> nat
        decreases self,
    {
        match self {
            Terms::End => 0,
            Terms::More(_, term, rest) => 1 + term.operators() + rest.operators(),
        }
    }

    /// Whether the tokens of the source, from the one that `at` others come
    /// before, spell these terms.
    pub open spec fn spelled(self, src: Seq<u8>, at: nat) -> bool
        decreases self,
    {
        match self {
            Terms::End => true,
            Terms::More(operator, term, rest) => {
                &&& is_term_operator(operator)
                &&& nth_token(src, at).kind == operator
                &&& term.spelled(src, at + 1)
                &&& rest.spelled(src, at + 1 + term.tokens())
            },
        }
    }

    /// The instructions that apply the terms, one after the other, to the
    /// value on the stack: each right term, then its operator.
    pub open spec fn code(self, src: Seq<u8>, at: nat) -> Seq<OpCode>
        decreases self,
    {
        match self {
            Terms::End => Seq::empty(),
            Terms::More(operator, term, rest) => term.code(src, at + 1).push(
                binary_op(operator)->0,
            ) + rest.code(src, at + 1 + term.tokens()),
        }
    }
}

impl Expression {
    /// The number of tokens.
    pub open spec fn tokens(self) -> nat
        decreases self,
    {
        self.first.tokens() + self.rest.tokens()
    }

    /// The number of numeric literals.
    pub open spec fn literals(self) -> nat
        decreases self,
    {
        self.first.literals() + self.rest.literals()
    }

    /// The number of operators, unary and binary.
    pub open spec fn operators(self) -> nat
        decreases self,
    {
        self.first.operators() + self.rest.operators()
    }

    /// Whether the tokens of the source, from the one that `at` others come
    /// before, spell this expression.
    pub open spec fn spelled(self, src: Seq<u8>, at: nat) -> bool
        decreases self,
    {
        self.first.spelled(src, at) && self.rest.spelled(src, at + self.first.tokens())
    }

    /// The instructions that leave the expression's value on the stack.
    pub open spec fn code(self, src: Seq<u8>, at: nat) -> Seq<OpCode>
        decreases self,
    {
        self.first.code(src, at) + self.rest.code(src, at + self.first.tokens())
    }
}

/// Whether the compilation has consumed the first `at` tokens of the source
/// and holds the next one as the token ahead.
#[verifier::opaque]
pub open spec fn synced(src: Seq<u8>, st: Compilation, at: nat) -> bool {
    &&& st.parser.current_token == Some(nth_token(src, at))
    &&& st.scanner == scanner_after(src, cursor_after(src, at))
}

/// Whether the second compilation is the first one `tokens` tokens further,
/// with the given instructions emitted on the way and no error more.
#[verifier::opaque]
pub open spec fn moved(
    src: Seq<u8>,
    st: Compilation,
    to: Compilation,
    at: nat,
    tokens: nat,
    code: Seq<OpCode>,
) -> bool {
    &&& synced(src, to, at + tokens)
    &&& to.parser.had_error == st.parser.had_error
    &&& to.parser.panic_mode == st.parser.panic_mode
    &&& to.parser.diagnostic == st.parser.diagnostic
    &&& to.parser.previous_token is Some
    &&& to.code == st.code + code
    &&& remaining(src, to) <= remaining(src, st)
    &&& tokens > 0 ==> remaining(src, to) < remaining(src, st)
}

/// Whether the token `at` others come before is no error token.
pub open spec fn readable(src: Seq<u8>, at: nat) -> bool {
    !(nth_token(src, at).kind is TokenError)
}

/// Whether the token can stand behind an expression: it is readable and no
/// binary operator.
pub open spec fn ends_expression(kind: TokenKind) -> bool {
    !(kind is TokenError) && rule_of(kind).1 != ParseFn::Binary
}

/// Whether the token can stand behind a term: it is readable and neither
/// `*` nor `/`.
pub open spec fn ends_term(kind: TokenKind) -> bool {
    !(kind is TokenError) && !is_factor_operator(kind)
}

/// Where a compilation has moved to, it is in step with the source.
proof fn lemma_moved(
    src: Seq<u8>,
    st: Compilation,
    to: Compilation,
    at: nat,
    tokens: nat,
    code: Seq<OpCode>,
)
    requires
        moved(src, st, to, at, tokens, code),
    ensures
        synced(src, to, at + tokens),
        to.parser.previous_token is Some,
{
    reveal(moved);
}

/// One move after another is a move.
proof fn lemma_then(
    src: Seq<u8>,
    st: Compilation,
    mid: Compilation,
    to: Compilation,
    at: nat,
    tokens: nat,
    code: Seq<OpCode>,
    more_tokens: nat,
    more_code: Seq<OpCode>,
)
    requires
        moved(src, st, mid, at, tokens, code),
        moved(src, mid, to, at + tokens, more_tokens, more_code),
    ensures
        moved(src, st, to, at, tokens + more_tokens, code + more_code),
{
    reveal(moved);
    assert(st.code + (code + more_code) =~= (st.code + code) + more_code);
}

/// A compilation has moved to itself by nothing.
proof fn lemma_stays(src: Seq<u8>, st: Compilation, at: nat)
    requires
        synced(src, st, at),
        st.parser.previous_token is Some,
    ensures
        moved(src, st, st, at, 0, Seq::empty()),
{
    reveal(moved);
    assert(st.code + Seq::<OpCode>::empty() =~= st.code);
}

proof fn lemma_advanced(src: Seq<u8>, st: Compilation, at: nat)
    requires
        src.len() <= usize::MAX,
        synced(src, st, at),
        nth_token(src, at).kind != TokenKind::TokenEof,
        readable(src, at + 1),
    ensures
        moved(src, st, advanced(src, st), at, 1, Seq::empty()),
        advanced(src, st).parser.previous_token == Some(nth_token(src, at)),
{
    reveal(nth_token);
    reveal(synced);
    reveal(moved);
    lemma_cursor_after_bounds(src, at);
    lemma_cursor_after_bounds(src, at + 1);
    assert(cursor_after(src, at + 1) == st.scanner.current);
    let shifted = Compilation {
        parser: Parser { previous_token: st.parser.current_token, ..st.parser },
        ..st
    };
    assert(advanced(src, st) == fetched(src, shifted));
    assert(token_at(src, shifted.scanner.current as int) == nth_token(src, at + 1));
    assert(cursor_after(src, at + 2) == scanner_after(src, cursor_after(src, at + 1)).current);
    assert(st.code + Seq::<OpCode>::empty() =~= st.code);
}

/// No binary operator binds as tightly as a unary one: at that precedence
/// an operand is all that is parsed.
proof fn lemma_parsed_operand(src: Seq<u8>, st: Compilation, at: nat, tokens: nat, code: Seq<OpCode>)
    requires
        moved(src, st, prefixed(src, st), at, tokens, code),
    ensures
        parsed(src, st, PREC_UNARY) == prefixed(src, st),
{
    reveal(moved);
}

/// The operator loop ends at a token that is no binary operator of at least
/// the precedence asked for.
proof fn lemma_exit(src: Seq<u8>, st: Compilation, at: nat, precede: u8)
    requires
        synced(src, st, at),
        st.parser.previous_token is Some,
        !(rule_of(nth_token(src, at).kind).1 == ParseFn::Binary && precede <= rule_of(
            nth_token(src, at).kind,
        ).2),
    ensures
        moved(src, st, infix_parsed(src, st, precede), at, 0, Seq::empty()),
{
    reveal(synced);
    assert(infix_parsed(src, st, precede) == st);
    lemma_stays(src, st, at);
}

proof fn lemma_number(src: Seq<u8>, st: Compilation, at: nat)
    requires
        moved(src, st, advanced(src, st), at, 1, Seq::empty()),
        advanced(src, st).parser.previous_token == Some(nth_token(src, at)),
        nth_token(src, at).kind == TokenKind::TokenNumber,
    ensures
        moved(src, st, prefixed(src, st), at, 1, Operand::Number.code(src, at)),
{
    reveal(synced);
    reveal(moved);
    let first = advanced(src, st);
    assert(first.code == st.code);
    assert(prefixed(src, st).code == st.code.push(
        OpCode::OpConstant(literal_of(nth_token(src, at))),
    ));
    assert(st.code.push(OpCode::OpConstant(literal_of(nth_token(src, at)))) =~= st.code
        + Operand::Number.code(src, at));
}

proof fn lemma_negated(src: Seq<u8>, st: Compilation, at: nat, tokens: nat, code: Seq<OpCode>)
    requires
        moved(src, st, advanced(src, st), at, 1, Seq::empty()),
        advanced(src, st).parser.previous_token == Some(nth_token(src, at)),
        nth_token(src, at).kind == TokenKind::TokenMinus,
        moved(src, advanced(src, st), prefixed(src, advanced(src, st)), at + 1, tokens, code),
    ensures
        moved(src, st, prefixed(src, st), at, 1 + tokens, code.push(OpCode::OpNegate)),
{
    reveal(synced);
    reveal(moved);
    let first = advanced(src, st);
    let negated = prefixed(src, first);
    assert(infix_parsed(src, negated, PREC_UNARY) == negated);
    assert(parsed(src, first, PREC_UNARY) == negated);
    assert(unary_parsed(src, first) == emitted(negated, OpCode::OpNegate));
    assert(prefixed(src, st) == unary_parsed(src, first));
    assert(first.code == st.code);
    assert((st.code + code).push(OpCode::OpNegate) =~= st.code + code.push(OpCode::OpNegate));
}

proof fn lemma_group(src: Seq<u8>, st: Compilation, at: nat, tokens: nat, code: Seq<OpCode>)
    requires
        src.len() <= usize::MAX,
        moved(src, st, advanced(src, st), at, 1, Seq::empty()),
        advanced(src, st).parser.previous_token == Some(nth_token(src, at)),
        nth_token(src, at).kind == TokenKind::TokenLeftParen,
        moved(
            src,
            advanced(src, st),
            expression_parsed(src, advanced(src, st)),
            at + 1,
            tokens,
            code,
        ),
        nth_token(src, at + 1 + tokens).kind == TokenKind::TokenRightParen,
        readable(src, at + 2 + tokens),
    ensures
        moved(src, st, prefixed(src, st), at, 2 + tokens, code),
{
    let first = advanced(src, st);
    let body = expression_parsed(src, first);
    lemma_moved(src, first, body, at + 1, tokens, code);
    lemma_advanced(src, body, at + 1 + tokens);
    let closed = advanced(src, body);
    assert(grouping_parsed(src, first) == closed) by {
        reveal(synced);
    }
    assert(prefixed(src, st) == closed) by {
        reveal(moved);
    }
    lemma_then(src, st, first, body, at, 1, Seq::empty(), tokens, code);
    lemma_then(src, st, body, closed, at, 1 + tokens, Seq::empty() + code, 1, Seq::empty());
    assert((Seq::<OpCode>::empty() + code) + Seq::<OpCode>::empty() =~= code);
}

/// One step of the operator loop: behind the operator, its right operand is
/// parsed at the precedence above the operator's own, and the operator's
/// instruction emitted.
proof fn lemma_binary(
    src: Seq<u8>,
    st: Compilation,
    at: nat,
    operator: TokenKind,
    tokens: nat,
    code: Seq<OpCode>,
)
    requires
        binary_op(operator) is Some,
        nth_token(src, at).kind == operator,
        moved(src, st, advanced(src, st), at, 1, Seq::empty()),
        advanced(src, st).parser.previous_token == Some(nth_token(src, at)),
        moved(
            src,
            advanced(src, st),
            parsed(src, advanced(src, st), (rule_of(operator).2 + 1) as u8),
            at + 1,
            tokens,
            code,
        ),
    ensures
        moved(
            src,
            advanced(src, st),
            binary_parsed(src, advanced(src, st)),
            at + 1,
            tokens,
            code.push(binary_op(operator)->0),
        ),
{
    reveal(synced);
    reveal(moved);
    let taken = advanced(src, st);
    assert((taken.code + code).push(binary_op(operator)->0) =~= taken.code + code.push(
        binary_op(operator)->0,
    ));
}

/// An operand and what the operator loop makes of what follows it are what
/// is parsed.
proof fn lemma_parsed(
    src: Seq<u8>,
    st: Compilation,
    at: nat,
    precede: u8,
    tokens: nat,
    code: Seq<OpCode>,
    more_tokens: nat,
    more_code: Seq<OpCode>,
)
    requires
        moved(src, st, prefixed(src, st), at, tokens, code),
        moved(
            src,
            prefixed(src, st),
            infix_parsed(src, prefixed(src, st), precede),
            at + tokens,
            more_tokens,
            more_code,
        ),
    ensures
        moved(src, st, parsed(src, st, precede), at, tokens + more_tokens, code + more_code),
{
    assert(parsed(src, st, precede) == infix_parsed(src, prefixed(src, st), precede)) by {
        reveal(moved);
    }
    lemma_then(
        src,
        st,
        prefixed(src, st),
        infix_parsed(src, prefixed(src, st), precede),
        at,
        tokens,
        code,
        more_tokens,
        more_code,
    );
}

/// The operator loop goes on behind a step as it began.
proof fn lemma_loop(
    src: Seq<u8>,
    st: Compilation,
    at: nat,
    precede: u8,
    tokens: nat,
    code: Seq<OpCode>,
    more_tokens: nat,
    more_code: Seq<OpCode>,
)
    requires
        binary_op(nth_token(src, at).kind) is Some,
        precede <= rule_of(nth_token(src, at).kind).2,
        synced(src, st, at),
        moved(src, st, advanced(src, st), at, 1, Seq::empty()),
        moved(src, advanced(src, st), binary_parsed(src, advanced(src, st)), at + 1, tokens, code),
        moved(
            src,
            binary_parsed(src, advanced(src, st)),
            infix_parsed(src, binary_parsed(src, advanced(src, st)), precede),
            at + 1 + tokens,
            more_tokens,
            more_code,
        ),
    ensures
        moved(
            src,
            st,
            infix_parsed(src, st, precede),
            at,
            1 + tokens + more_tokens,
            code + more_code,
        ),
{
    let operator = advanced(src, st);
    let operand = binary_parsed(src, operator);
    let end = infix_parsed(src, operand, precede);
    assert(infix_parsed(src, st, precede) == end) by {
        reveal(synced);
        reveal(moved);
        assert(rule_of(st.parser.current_token->0.kind).1 == ParseFn::Binary);
    }
    lemma_then(src, st, operator, operand, at, 1, Seq::empty(), tokens, code);
    lemma_then(
        src,
        st,
        operand,
        end,
        at,
        1 + tokens,
        Seq::empty() + code,
        more_tokens,
        more_code,
    );
    assert((Seq::<OpCode>::empty() + code) + more_code =~= code + more_code);
}

proof fn lemma_operand_starts(operand: Operand, src: Seq<u8>, at: nat)
    requires
        operand.spelled(src, at),
    ensures
        nth_token(src, at).kind == TokenKind::TokenNumber || nth_token(src, at).kind
            == TokenKind::TokenMinus || nth_token(src, at).kind == TokenKind::TokenLeftParen,
        readable(src, at),
        operand.tokens() >= 1,
{
}

proof fn lemma_factors_start(factors: Factors, src: Seq<u8>, at: nat)
    requires
        factors.spelled(src, at),
        readable(src, at + factors.tokens()),
    ensures
        readable(src, at),
{
}

proof fn lemma_terms_start(terms: Terms, src: Seq<u8>, at: nat)
    requires
        terms.spelled(src, at),
        readable(src, at + terms.tokens()),
    ensures
        readable(src, at),
{
}

proof fn lemma_operand(src: Seq<u8>, st: Compilation, at: nat, operand: Operand)
    requires
        src.len() <= usize::MAX,
        synced(src, st, at),
        operand.spelled(src, at),
        readable(src, at + operand.tokens()),
    ensures
        moved(src, st, prefixed(src, st), at, operand.tokens(), operand.code(src, at)),
    decreases operand.tokens(), 0nat,
{
    let first = advanced(src, st);
    match operand {
        Operand::Number => {
            lemma_advanced(src, st, at);
            lemma_number(src, st, at);
        },
        Operand::Negated(inner) => {
            lemma_operand_starts(*inner, src, at + 1);
            lemma_advanced(src, st, at);
            lemma_moved(src, st, first, at, 1, Seq::empty());
            lemma_operand(src, first, at + 1, *inner);
            lemma_negated(src, st, at, inner.tokens(), inner.code(src, at + 1));
        },
        Operand::Group(inner) => {
            assert(inner.spelled(src, at + 1));
            assert(inner.first.spelled(src, at + 1));
            lemma_operand_starts(inner.first.first, src, at + 1);
            lemma_advanced(src, st, at);
            lemma_moved(src, st, first, at, 1, Seq::empty());
            lemma_expression(src, first, at + 1, *inner);
            lemma_group(src, st, at, inner.tokens(), inner.code(src, at + 1));
        },
    }
}

/// The factors of a term are what the operator loop parses at the
/// precedence of `*` and `/`.
proof fn lemma_factors(src: Seq<u8>, st: Compilation, at: nat, factors: Factors)
    requires
        src.len() <= usize::MAX,
        synced(src, st, at),
        st.parser.previous_token is Some,
        factors.spelled(src, at),
        ends_term(nth_token(src, at + factors.tokens()).kind),
    ensures
        moved(
            src,
            st,
            infix_parsed(src, st, PREC_FACTOR),
            at,
            factors.tokens(),
            factors.code(src, at),
        ),
    decreases factors.tokens(), 1nat,
{
    match factors {
        Factors::End => {
            lemma_exit(src, st, at, PREC_FACTOR);
        },
        Factors::More(operator, operand, rest) => {
            let behind = at + 1 + operand.tokens();
            let step = operand.code(src, at + 1).push(binary_op(operator)->0);
            lemma_factors_start(*rest, src, behind);
            lemma_factor_step(src, st, at, operator, *operand, behind);
            let done = binary_parsed(src, advanced(src, st));
            lemma_moved(src, advanced(src, st), done, at + 1, operand.tokens(), step);
            lemma_factors(src, done, behind, *rest);
            lemma_loop(
                src,
                st,
                at,
                PREC_FACTOR,
                operand.tokens(),
                step,
                rest.tokens(),
                rest.code(src, behind),
            );
        },
    }
}

/// One factor: `*` or `/` is consumed, its right operand parsed, and its
/// instruction emitted.
proof fn lemma_factor_step(
    src: Seq<u8>,
    st: Compilation,
    at: nat,
    operator: TokenKind,
    operand: Operand,
    behind: nat,
)
    requires
        src.len() <= usize::MAX,
        synced(src, st, at),
        is_factor_operator(operator),
        nth_token(src, at).kind == operator,
        operand.spelled(src, at + 1),
        behind == at + 1 + operand.tokens(),
        readable(src, behind),
    ensures
        moved(src, st, advanced(src, st), at, 1, Seq::empty()),
        moved(
            src,
            advanced(src, st),
            binary_parsed(src, advanced(src, st)),
            at + 1,
            operand.tokens(),
            operand.code(src, at + 1).push(binary_op(operator)->0),
        ),
    decreases operand.tokens(), 1nat,
{
    lemma_operand_starts(operand, src, at + 1);
    lemma_advanced(src, st, at);
    let taken = advanced(src, st);
    lemma_moved(src, st, taken, at, 1, Seq::empty());
    lemma_operand(src, taken, at + 1, operand);
    lemma_parsed_operand(src, taken, at + 1, operand.tokens(), operand.code(src, at + 1));
    lemma_binary(src, st, at, operator, operand.tokens(), operand.code(src, at + 1));
}

/// One term behind `+` or `-`: the operator is consumed, the term to its
/// right parsed with all its factors, and the operator's instruction
/// emitted.
proof fn lemma_term_step(
    src: Seq<u8>,
    st: Compilation,
    at: nat,
    operator: TokenKind,
    term: Term,
    behind: nat,
)
    requires
        src.len() <= usize::MAX,
        synced(src, st, at),
        is_term_operator(operator),
        nth_token(src, at).kind == operator,
        term.spelled(src, at + 1),
        behind == at + 1 + term.tokens(),
        ends_term(nth_token(src, behind).kind),
    ensures
        moved(src, st, advanced(src, st), at, 1, Seq::empty()),
        moved(
            src,
            advanced(src, st),
            binary_parsed(src, advanced(src, st)),
            at + 1,
            term.tokens(),
            term.code(src, at + 1).push(binary_op(operator)->0),
        ),
    decreases term.tokens(), 2nat,
{
    let after_first = at + 1 + term.first.tokens();
    lemma_operand_starts(term.first, src, at + 1);
    lemma_advanced(src, st, at);
    let taken = advanced(src, st);
    lemma_moved(src, st, taken, at, 1, Seq::empty());
    lemma_factors_start(term.rest, src, after_first);
    lemma_operand(src, taken, at + 1, term.first);
    let head = prefixed(src, taken);
    lemma_moved(src, taken, head, at + 1, term.first.tokens(), term.first.code(src, at + 1));
    lemma_factors(src, head, after_first, term.rest);
    lemma_parsed(
        src,
        taken,
        at + 1,
        PREC_FACTOR,
        term.first.tokens(),
        term.first.code(src, at + 1),
        term.rest.tokens(),
        term.rest.code(src, after_first),
    );
    lemma_binary(src, st, at, operator, term.tokens(), term.code(src, at + 1));
}

/// The factors of the first term and then the terms behind it are what the
/// operator loop parses at the precedence of a whole expression.
proof fn lemma_tail(src: Seq<u8>, st: Compilation, at: nat, factors: Factors, terms: Terms)
    requires
        src.len() <= usize::MAX,
        synced(src, st, at),
        st.parser.previous_token is Some,
        factors.spelled(src, at),
        terms.spelled(src, at + factors.tokens()),
        ends_expression(nth_token(src, at + factors.tokens() + terms.tokens()).kind),
    ensures
        moved(
            src,
            st,
            infix_parsed(src, st, PREC_ASSIGNMENT),
            at,
            factors.tokens() + terms.tokens(),
            factors.code(src, at) + terms.code(src, at + factors.tokens()),
        ),
    decreases factors.tokens() + terms.tokens(), 4nat,
{
    match factors {
        Factors::More(operator, operand, rest) => {
            lemma_tail_factor(src, st, at, operator, *operand, *rest, terms);
        },
        Factors::End => {
            assert(factors.code(src, at) + terms.code(src, at) =~= terms.code(src, at));
            match terms {
                Terms::End => {
                    lemma_exit(src, st, at, PREC_ASSIGNMENT);
                },
                Terms::More(operator, term, rest) => {
                    lemma_tail_term(src, st, at, operator, *term, *rest);
                },
            }
        },
    }
}

/// The loop of a whole expression where it stands at `*` or `/`.
proof fn lemma_tail_factor(
    src: Seq<u8>,
    st: Compilation,
    at: nat,
    operator: TokenKind,
    operand: Operand,
    rest: Factors,
    terms: Terms,
)
    requires
        src.len() <= usize::MAX,
        synced(src, st, at),
        st.parser.previous_token is Some,
        is_factor_operator(operator),
        nth_token(src, at).kind == operator,
        operand.spelled(src, at + 1),
        rest.spelled(src, at + 1 + operand.tokens()),
        terms.spelled(src, at + 1 + operand.tokens() + rest.tokens()),
        ends_expression(
            nth_token(src, at + 1 + operand.tokens() + rest.tokens() + terms.tokens()).kind,
        ),
    ensures
        moved(
            src,
            st,
            infix_parsed(src, st, PREC_ASSIGNMENT),
            at,
            1 + operand.tokens() + rest.tokens() + terms.tokens(),
            (operand.code(src, at + 1).push(binary_op(operator)->0) + rest.code(
                src,
                at + 1 + operand.tokens(),
            )) + terms.code(src, at + 1 + operand.tokens() + rest.tokens()),
        ),
    decreases 1 + operand.tokens() + rest.tokens() + terms.tokens(), 3nat,
{
    let behind = at + 1 + operand.tokens();
    let step = operand.code(src, at + 1).push(binary_op(operator)->0);
    let more = rest.code(src, behind) + terms.code(src, behind + rest.tokens());
    lemma_terms_start(terms, src, behind + rest.tokens());
    lemma_factors_start(rest, src, behind);
    lemma_factor_step(src, st, at, operator, operand, behind);
    let done = binary_parsed(src, advanced(src, st));
    lemma_moved(src, advanced(src, st), done, at + 1, operand.tokens(), step);
    lemma_tail(src, done, behind, rest, terms);
    lemma_loop(
        src,
        st,
        at,
        PREC_ASSIGNMENT,
        operand.tokens(),
        step,
        rest.tokens() + terms.tokens(),
        more,
    );
    assert(step + more =~= (step + rest.code(src, behind)) + terms.code(
        src,
        behind + rest.tokens(),
    ));
}

/// The loop of a whole expression where it stands at `+` or `-`.
proof fn lemma_tail_term(
    src: Seq<u8>,
    st: Compilation,
    at: nat,
    operator: TokenKind,
    term: Term,
    rest: Terms,
)
    requires
        src.len() <= usize::MAX,
        synced(src, st, at),
        st.parser.previous_token is Some,
        is_term_operator(operator),
        nth_token(src, at).kind == operator,
        term.spelled(src, at + 1),
        rest.spelled(src, at + 1 + term.tokens()),
        ends_expression(nth_token(src, at + 1 + term.tokens() + rest.tokens()).kind),
    ensures
        moved(
            src,
            st,
            infix_parsed(src, st, PREC_ASSIGNMENT),
            at,
            1 + term.tokens() + rest.tokens(),
            term.code(src, at + 1).push(binary_op(operator)->0) + rest.code(
                src,
                at + 1 + term.tokens(),
            ),
        ),
    decreases 1 + term.tokens() + rest.tokens(), 3nat,
{
    let behind = at + 1 + term.tokens();
    let step = term.code(src, at + 1).push(binary_op(operator)->0);
    lemma_terms_start(rest, src, behind);
    lemma_term_step(src, st, at, operator, term, behind);
    let done = binary_parsed(src, advanced(src, st));
    lemma_moved(src, advanced(src, st), done, at + 1, term.tokens(), step);
    lemma_tail(src, done, behind, Factors::End, rest);
    assert(Factors::End.code(src, behind) + rest.code(src, behind) =~= rest.code(src, behind));
    lemma_loop(
        src,
        st,
        at,
        PREC_ASSIGNMENT,
        term.tokens(),
        step,
        rest.tokens(),
        rest.code(src, behind),
    );
}

/// A whole expression is what is parsed at the precedence of an expression.
proof fn lemma_expression(src: Seq<u8>, st: Compilation, at: nat, expression: Expression)
    requires
        src.len() <= usize::MAX,
        synced(src, st, at),
        expression.spelled(src, at),
        ends_expression(nth_token(src, at + expression.tokens()).kind),
    ensures
        moved(
            src,
            st,
            expression_parsed(src, st),
            at,
            expression.tokens(),
            expression.code(src, at),
        ),
    decreases expression.tokens(), 5nat,
{
    let first = expression.first.first;
    let factors = expression.first.rest;
    let terms = expression.rest;
    let after_first = at + first.tokens();
    lemma_operand_starts(first, src, at);
    lemma_terms_start(terms, src, after_first + factors.tokens());
    lemma_factors_start(factors, src, after_first);
    lemma_operand(src, st, at, first);
    let head = prefixed(src, st);
    lemma_moved(src, st, head, at, first.tokens(), first.code(src, at));
    lemma_tail(src, head, after_first, factors, terms);
    lemma_parsed(
        src,
        st,
        at,
        PREC_ASSIGNMENT,
        first.tokens(),
        first.code(src, at),
        factors.tokens() + terms.tokens(),
        factors.code(src, after_first) + terms.code(src, after_first + factors.tokens()),
    );
    assert(first.code(src, at) + (factors.code(src, after_first) + terms.code(
        src,
        after_first + factors.tokens(),
    )) =~= expression.code(src, at));
}

/// An expression compiles to one instruction for each of its literals and
/// one for each of its operators.
pub proof fn lemma_code_length(src: Seq<u8>, at: nat, expression: Expression)
    ensures
        expression.code(src, at).len() == expression.literals() + expression.operators(),
    decreases expression,
{
    lemma_term_code_length(src, at, expression.first);
    lemma_terms_code_length(src, at + expression.first.tokens(), expression.rest);
}

proof fn lemma_operand_code_length(src: Seq<u8>, at: nat, operand: Operand)
    ensures
        operand.code(src, at).len() == operand.literals() + operand.operators(),
    decreases operand,
{
    match operand {
        Operand::Number => {},
        Operand::Negated(inner) => {
            lemma_operand_code_length(src, at + 1, *inner);
        },
        Operand::Group(inner) => {
            lemma_code_length(src, at + 1, *inner);
        },
    }
}

proof fn lemma_factors_code_length(src: Seq<u8>, at: nat, factors: Factors)
    ensures
        factors.code(src, at).len() == factors.literals() + factors.operators(),
    decreases factors,
{
    match factors {
        Factors::End => {},
        Factors::More(_, operand, rest) => {
            lemma_operand_code_length(src, at + 1, *operand);
            lemma_factors_code_length(src, at + 1 + operand.tokens(), *rest);
        },
    }
}

proof fn lemma_term_code_length(src: Seq<u8>, at: nat, term: Term)
    ensures
        term.code(src, at).len() == term.literals() + term.operators(),
    decreases term,
{
    lemma_operand_code_length(src, at, term.first);
    lemma_factors_code_length(src, at + term.first.tokens(), term.rest);
}

proof fn lemma_terms_code_length(src: Seq<u8>, at: nat, terms: Terms)
    ensures
        terms.code(src, at).len() == terms.literals() + terms.operators(),
    decreases terms,
{
    match terms {
        Terms::End => {},
        Terms::More(_, term, rest) => {
            lemma_term_code_length(src, at + 1, *term);
            lemma_terms_code_length(src, at + 1 + term.tokens(), *rest);
        },
    }
}

/// Every well-formed expression compiles to its postfix form, and so to as
/// many instructions as it has literals and operators, and one more for the
/// final `OpReturn`.
///
/// If the tokens of a source spell an expression and the end of the input
/// follows it, then compiling the source from scratch records no error; the
/// instructions emitted are those of the expression, operands before their
/// operator, and then `OpReturn`; and their number is the number of the
/// expression's literals, plus the number of its operators, unary and binary,
/// plus one.
pub proof fn law_expression_compiles(src: Seq<u8>, expression: Expression)
    requires
        scannable(src),
        expression.spelled(src, 0),
        nth_token(src, expression.tokens()).kind == TokenKind::TokenEof,
    ensures
        !compiled(src, fresh()).parser.had_error,
        compiled(src, fresh()).code == expression.code(src, 0).push(OpCode::OpReturn),
        compiled(src, fresh()).code.len() == expression.literals() + expression.operators() + 1,
{
    lemma_operand_starts(expression.first.first, src, 0);
    let start = advanced(src, fresh());
    assert(synced(src, start, 0)) by {
        reveal(nth_token);
        reveal(synced);
        assert(start == fetched(src, fresh()));
    }
    lemma_expression(src, start, 0, expression);
    let body = expression_parsed(src, start);
    let end = consumed(src, body, TokenKind::TokenEof, Message::ExpectEnd);
    assert(end.code == expression.code(src, 0) && !end.parser.had_error) by {
        reveal(nth_token);
        reveal(synced);
        reveal(moved);
        assert(start.code + expression.code(src, 0) =~= expression.code(src, 0));
        assert(at_end(body.parser));
        assert(end == advanced(src, body));
    }
    lemma_code_length(src, 0, expression);
}

} // verus!
