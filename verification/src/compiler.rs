//! The parser and compiler: tokens in, bytecode out, in one pass.
//!
//! Expressions are recognised by precedence climbing, and each instruction is
//! emitted at the moment its subexpression is complete; no syntax tree is
//! built. What a compilation does is stated as a function from one
//! [`Compilation`] to the next: [`advanced`], [`parsed`] and the functions
//! beside them say what each step makes of the cursor, the parser and the
//! chunk, and every executable function here is proved to do exactly that.

use vstd::prelude::*;
use vstd::string::StringSliceAdditionalSpecFns;
use crate::chunk::{Chunk, OpCode};
use crate::scanner::{
    is_numeral, lemma_scan_progress, lemma_token_in, newlines, scanner_after, token_at, token_in,
    LexError, Scanner, Token, TokenKind,
};
use crate::value::Literal;

verus! {

pub const PREC_NONE: u8 = 1;
/// `=`
pub const PREC_ASSIGNMENT: u8 = 2;
/// `or`
pub const PREC_OR: u8 = 3;
/// `and`
pub const PREC_AND: u8 = 4;
/// `==` `!=`
pub const PREC_EQUALITY: u8 = 5;
/// `<` `>` `<=` `>=`
pub const PREC_COMPARISON: u8 = 6;
/// `+` `-`
pub const PREC_TERM: u8 = 7;
/// `*` `/`
pub const PREC_FACTOR: u8 = 8;
/// `!` `-`
pub const PREC_UNARY: u8 = 9;
/// `.` `()`
pub const PREC_CALL: u8 = 10;
pub const PREC_PRIMARY: u8 = 11;

/// What a token can start or continue.
#[derive(Debug, Clone, Copy, PartialEq, Eq, Structural)]
pub enum ParseFn {
    Absent,
    Grouping,
    Unary,
    Binary,
    Number,
}

/// What the parser found wrong.
#[derive(Debug, Clone, Copy, PartialEq, Eq, Structural)]
pub enum Message {
    /// The scanner could not read the text.
    Unreadable(LexError),
    /// A token stands where an expression has to start.
    ExpectExpression,
    /// A group is not closed where its expression ends.
    ExpectRightParen,
    /// The source goes on behind the expression.
    ExpectEnd,
}

/// Where in the source a diagnostic points.
#[derive(Debug, Clone, Copy, PartialEq, Eq, Structural)]
pub enum Place {
    /// At the end of the source.
    End,
    /// At text the scanner could not read; the message says what it was.
    Lexical,
    /// At the token that starts at the given offset and has the given length.
    Span(usize, usize),
}

/// The one diagnostic of a compilation: the first error found.
#[derive(Debug, Clone, Copy, PartialEq, Eq, Structural)]
pub struct Diagnostic {
    pub line: i32,
    pub place: Place,
    pub message: Message,
}

/// The parser: the token last consumed, the token ahead, and what went
/// wrong so far. Once `panic_mode` is set it stays set, so a compilation
/// reports its first error and no other.
#[derive(Debug, Clone, Copy, PartialEq, Eq, Structural)]
pub struct Parser {
    pub previous_token: Option<Token>,
    pub current_token: Option<Token>,
    pub had_error: bool,
    pub panic_mode: bool,
    pub diagnostic: Option<Diagnostic>,
}

/// Everything a compilation changes: the scanner's cursor, the parser, and
/// what the chunk holds.
#[verifier::ext_equal]
pub struct Compilation {
    pub scanner: Scanner,
    pub parser: Parser,
    pub code: Seq<OpCode>,
    pub lines: Seq<i32>,
    pub constants: Seq<Literal>,
}

/// The compilation that a scanner, a parser and a chunk are in.
pub open spec fn compilation(scanner: Scanner, parser: Parser, chunk: Chunk) -> Compilation {
    Compilation {
        scanner,
        parser,
        code: chunk.code@,
        lines: chunk.lines@,
        constants: chunk.constants@,
    }
}

/// Whether the literal lies in the source and its text is a numeral.
pub open spec fn literal_in(src: Seq<u8>, literal: Literal) -> bool {
    &&& literal.start + literal.length <= src.len()
    &&& is_numeral(src.subrange(literal.start as int, literal.start + literal.length))
}

/// Whether what the parser and the chunk hold comes from the source: the
/// chunk is well formed, the parser's tokens lie in the source, every literal
/// of the chunk is a numeral of the source, and every line of the chunk is a
/// line of the source.
pub open spec fn sound(src: Seq<u8>, parser: Parser, chunk: Chunk) -> bool {
    &&& chunk.wf()
    &&& parser.previous_token matches Some(token) ==> token_in(src, token)
    &&& parser.current_token matches Some(token) ==> token_in(src, token)
    &&& forall|i: int|
        0 <= i < chunk.code@.len() ==> (#[trigger] chunk.code@[i] matches OpCode::OpConstant(
            literal,
        ) ==> literal_in(src, literal))
    &&& forall|i: int|
        0 <= i < chunk.constants@.len() ==> literal_in(src, #[trigger] chunk.constants@[i])
    &&& forall|i: int|
        0 <= i < chunk.lines@.len() ==> 1 <= #[trigger] chunk.lines@[i] <= 1 + newlines(
            src,
            src.len() as int,
        )
}

/// The prefix rule, the infix rule and the binding precedence of a token.
pub open spec fn rule_of(kind: TokenKind) -> (ParseFn, ParseFn, u8) {
    match kind {
        TokenKind::TokenLeftParen => (ParseFn::Grouping, ParseFn::Absent, PREC_NONE),
        TokenKind::TokenPlus => (ParseFn::Absent, ParseFn::Binary, PREC_TERM),
        TokenKind::TokenMinus => (ParseFn::Unary, ParseFn::Binary, PREC_TERM),
        TokenKind::TokenSlash => (ParseFn::Absent, ParseFn::Binary, PREC_FACTOR),
        TokenKind::TokenStar => (ParseFn::Absent, ParseFn::Binary, PREC_FACTOR),
        TokenKind::TokenNumber => (ParseFn::Number, ParseFn::Absent, PREC_NONE),
        _ => (ParseFn::Absent, ParseFn::Absent, PREC_NONE),
    }
}

/// Where a diagnostic about the token points.
pub open spec fn place_of(token: Token) -> Place {
    match token.kind {
        TokenKind::TokenEof => Place::End,
        TokenKind::TokenError(_) => Place::Lexical,
        _ => Place::Span(token.start, token.length),
    }
}

/// The parser after an error at the token. In panic mode nothing changes.
pub open spec fn reported(parser: Parser, token: Token, message: Message) -> Parser {
    if parser.panic_mode {
        parser
    } else {
        Parser {
            panic_mode: true,
            had_error: true,
            diagnostic: Some(Diagnostic { line: token.line, place: place_of(token), message }),
            ..parser
        }
    }
}

/// Whether the token ahead is the end of the input.
pub open spec fn at_end(parser: Parser) -> bool {
    parser.current_token matches Some(token) && token.kind == TokenKind::TokenEof
}

/// How much is left to parse: the bytes that the scanner has not consumed,
/// and one more as long as the token ahead is not the end of the input.
pub open spec fn remaining(src: Seq<u8>, st: Compilation) -> nat {
    let bytes = if st.scanner.current <= src.len() {
        (src.len() - st.scanner.current) as nat
    } else {
        0nat
    };
    if at_end(st.parser) {
        bytes
    } else {
        bytes + 1
    }
}

/// The compilation after the next token that is no error token has been
/// scanned and made the token ahead. Each error token on the way is
/// reported.
pub open spec fn fetched(src: Seq<u8>, st: Compilation) -> Compilation
    decreases src.len() - st.scanner.current,
{
    let token = token_at(src, st.scanner.current as int);
    let scanner = scanner_after(src, st.scanner.current as int);
    let parser = Parser { current_token: Some(token), ..st.parser };
    match token.kind {
        TokenKind::TokenError(reason) => {
            if st.scanner.current < scanner.current <= src.len() {
                fetched(
                    src,
                    Compilation {
                        scanner,
                        parser: reported(parser, token, Message::Unreadable(reason)),
                        ..st
                    },
                )
            } else {
                Compilation { scanner, parser, ..st }
            }
        },
        _ => Compilation { scanner, parser, ..st },
    }
}

/// The compilation one token further: the token ahead becomes the token last
/// consumed, and the next token is fetched. Once the token ahead is the end
/// of the input it stays, and the scanner is not asked again.
pub open spec fn advanced(src: Seq<u8>, st: Compilation) -> Compilation {
    let shifted = Compilation {
        parser: Parser { previous_token: st.parser.current_token, ..st.parser },
        ..st
    };
    if at_end(st.parser) {
        shifted
    } else {
        fetched(src, shifted)
    }
}

/// The compilation with one more instruction, tagged with the line of the
/// token last consumed.
pub open spec fn emitted(st: Compilation, op: OpCode) -> Compilation {
    Compilation {
        code: st.code.push(op),
        lines: st.lines.push(st.parser.previous_token->0.line),
        ..st
    }
}

/// Every instruction is tagged with the line of the token that was last
/// consumed when it was emitted, and the line table keeps step with the
/// code: if each instruction had its line before, each has it after.
pub proof fn law_emitted_line(st: Compilation, op: OpCode)
    requires
        st.lines.len() == st.code.len(),
    ensures
        emitted(st, op).lines.len() == emitted(st, op).code.len(),
        emitted(st, op).code.last() == op,
        emitted(st, op).lines.last() == st.parser.previous_token->0.line,
        emitted(st, op).code.drop_last() == st.code,
        emitted(st, op).lines.drop_last() == st.lines,
{
}

/// The literal that a number token stands for: its span.
pub open spec fn literal_of(token: Token) -> Literal {
    Literal { start: token.start, length: token.length }
}

/// The compilation after the number last consumed has been compiled: its
/// literal joins the pool, and the instruction that loads it is emitted.
pub open spec fn number_parsed(st: Compilation) -> Compilation {
    let literal = literal_of(st.parser.previous_token->0);
    emitted(Compilation { constants: st.constants.push(literal), ..st }, OpCode::OpConstant(literal))
}

/// The compilation after the token ahead has been required to be of the
/// given kind: consumed if it is, reported with the message if it is not.
pub open spec fn consumed(src: Seq<u8>, st: Compilation, kind: TokenKind, message: Message)
    -> Compilation {
    if st.parser.current_token->0.kind == kind {
        advanced(src, st)
    } else {
        Compilation {
            parser: reported(st.parser, st.parser.current_token->0, message),
            ..st
        }
    }
}

/// The instruction of a binary operator.
pub open spec fn binary_op(kind: TokenKind) -> Option<OpCode> {
    match kind {
        TokenKind::TokenPlus => Some(OpCode::OpAdd),
        TokenKind::TokenMinus => Some(OpCode::OpSubtract),
        TokenKind::TokenSlash => Some(OpCode::OpDivide),
        TokenKind::TokenStar => Some(OpCode::OpMultiply),
        _ => None,
    }
}

/// The compilation after one token has been consumed and its prefix rule
/// applied: a number is compiled, `-` and `(` parse what they govern, and
/// any other token is reported, for no expression starts with it.
pub open spec fn prefixed(src: Seq<u8>, st: Compilation) -> Compilation
    decreases remaining(src, st), 1nat,
{
    let first = advanced(src, st);
    let token = first.parser.previous_token->0;
    match rule_of(token.kind).0 {
        ParseFn::Unary => {
            if remaining(src, first) < remaining(src, st) {
                unary_parsed(src, first)
            } else {
                first
            }
        },
        ParseFn::Grouping => {
            if remaining(src, first) < remaining(src, st) {
                grouping_parsed(src, first)
            } else {
                first
            }
        },
        ParseFn::Number => number_parsed(first),
        _ => Compilation {
            parser: reported(first.parser, token, Message::ExpectExpression),
            ..first
        },
    }
}

/// The compilation after one expression has been parsed whose operators all
/// bind at least as tightly as `precede`: one token is consumed and its
/// prefix rule applied, and then, as long as the token ahead is a binary
/// operator of at least that precedence, the operator is consumed and its
/// right operand parsed.
pub open spec fn parsed(src: Seq<u8>, st: Compilation, precede: u8) -> Compilation
    decreases remaining(src, st), 3nat,
{
    let operand = prefixed(src, st);
    if remaining(src, operand) <= remaining(src, st) {
        infix_parsed(src, operand, precede)
    } else {
        operand
    }
}

/// The compilation after the binary operators ahead that bind at least as
/// tightly as `precede` have been parsed, each with its right operand.
pub open spec fn infix_parsed(src: Seq<u8>, st: Compilation, precede: u8) -> Compilation
    decreases remaining(src, st), 2nat,
{
    let rule = rule_of(st.parser.current_token->0.kind);
    if rule.1 == ParseFn::Binary && precede <= rule.2 {
        let operator = advanced(src, st);
        if remaining(src, operator) < remaining(src, st) {
            let operand = binary_parsed(src, operator);
            if remaining(src, operand) <= remaining(src, operator) {
                infix_parsed(src, operand, precede)
            } else {
                operand
            }
        } else {
            operator
        }
    } else {
        st
    }
}

/// The compilation after the operand of the unary operator last consumed has
/// been parsed and, for `-`, the negation emitted.
pub open spec fn unary_parsed(src: Seq<u8>, st: Compilation) -> Compilation
    decreases remaining(src, st), 4nat,
{
    let operand = parsed(src, st, PREC_UNARY);
    if st.parser.previous_token->0.kind == TokenKind::TokenMinus {
        emitted(operand, OpCode::OpNegate)
    } else {
        operand
    }
}

/// The compilation after the right operand of the binary operator last
/// consumed has been parsed, one level above the operator's own precedence,
/// and the operator's instruction emitted.
pub open spec fn binary_parsed(src: Seq<u8>, st: Compilation) -> Compilation
    decreases remaining(src, st), 4nat,
{
    let kind = st.parser.previous_token->0.kind;
    let operand = parsed(src, st, (rule_of(kind).2 + 1) as u8);
    match binary_op(kind) {
        Some(op) => emitted(operand, op),
        None => operand,
    }
}

/// The compilation after a whole expression has been parsed.
pub open spec fn expression_parsed(src: Seq<u8>, st: Compilation) -> Compilation
    decreases remaining(src, st), 4nat,
{
    parsed(src, st, PREC_ASSIGNMENT)
}

/// The compilation after the expression of a group has been parsed and its
/// closing parenthesis required.
pub open spec fn grouping_parsed(src: Seq<u8>, st: Compilation) -> Compilation
    decreases remaining(src, st), 5nat,
{
    consumed(src, expression_parsed(src, st), TokenKind::TokenRightParen, Message::ExpectRightParen)
}

/// The compilation that nothing has been done in yet: the scanner at the
/// start of the source on line one, a parser that has seen no token, and an
/// empty chunk.
pub open spec fn fresh() -> Compilation {
    Compilation {
        scanner: Scanner { start: 0, current: 0, line: 1 },
        parser: Parser {
            previous_token: None,
            current_token: None,
            had_error: false,
            panic_mode: false,
            diagnostic: None,
        },
        code: Seq::empty(),
        lines: Seq::empty(),
        constants: Seq::empty(),
    }
}

/// The compilation after a whole source has been compiled: the first token
/// fetched, one expression parsed, the end of the input required, and the
/// final `OpReturn` emitted.
pub open spec fn compiled(src: Seq<u8>, st: Compilation) -> Compilation {
    emitted(
        consumed(
            src,
            expression_parsed(src, advanced(src, st)),
            TokenKind::TokenEof,
            Message::ExpectEnd,
        ),
        OpCode::OpReturn,
    )
}


/// The prefix rule, the infix rule and the binding precedence of a token.
fn parse_rule(owner: TokenKind) -> (rule: (ParseFn, ParseFn, u8))
    ensures
        rule == rule_of(owner),
        PREC_NONE <= rule.2 <= PREC_PRIMARY,
{
    match owner {
        TokenKind::TokenLeftParen => (ParseFn::Grouping, ParseFn::Absent, PREC_NONE),
        TokenKind::TokenPlus => (ParseFn::Absent, ParseFn::Binary, PREC_TERM),
        TokenKind::TokenMinus => (ParseFn::Unary, ParseFn::Binary, PREC_TERM),
        TokenKind::TokenSlash => (ParseFn::Absent, ParseFn::Binary, PREC_FACTOR),
        TokenKind::TokenStar => (ParseFn::Absent, ParseFn::Binary, PREC_FACTOR),
        TokenKind::TokenNumber => (ParseFn::Number, ParseFn::Absent, PREC_NONE),
        _ => (ParseFn::Absent, ParseFn::Absent, PREC_NONE),
    }
}

impl Parser {
    /// A parser that has seen no token and no error.
    pub fn init_parser() -> (parser: Parser)
        ensures
            parser == (Parser {
                previous_token: None,
                current_token: None,
                had_error: false,
                panic_mode: false,
                diagnostic: None,
            }),
    {
        Parser {
            previous_token: None,
            current_token: None,
            had_error: false,
            panic_mode: false,
            diagnostic: None,
        }
    }

    /// Consumes the token ahead and fetches the next one that is no error
    /// token, reporting each error token on the way.
    fn advance(&mut self, source: &str, scanner: &mut Scanner, chunk: &mut Chunk)
        requires
            old(scanner).wf(source.spec_bytes()),
            sound(source.spec_bytes(), *old(self), *old(chunk)),
        ensures
            final(scanner).wf(source.spec_bytes()),
            sound(source.spec_bytes(), *final(self), *final(chunk)),
            final(chunk).extends(*old(chunk)),
            *final(chunk) == *old(chunk),
            final(self).previous_token == old(self).current_token,
            final(self).current_token is Some,
            compilation(*final(scanner), *final(self), *final(chunk)) == advanced(
                source.spec_bytes(),
                compilation(*old(scanner), *old(self), *old(chunk)),
            ),
            remaining(
                source.spec_bytes(),
                compilation(*final(scanner), *final(self), *final(chunk)),
            ) <= remaining(
                source.spec_bytes(),
                compilation(*old(scanner), *old(self), *old(chunk)),
            ),
            !at_end(*old(self)) ==> remaining(
                source.spec_bytes(),
                compilation(*final(scanner), *final(self), *final(chunk)),
            ) < remaining(
                source.spec_bytes(),
                compilation(*old(scanner), *old(self), *old(chunk)),
            ),
    {
        let ghost src = source.spec_bytes();
        let ghost target = advanced(src, compilation(*scanner, *self, *chunk));
        self.previous_token = self.current_token;
        match self.current_token {
            Some(token) => {
                if token.kind == TokenKind::TokenEof {
                    return ;
                }
            },
            None => {},
        }
        loop
            invariant_except_break
                fetched(src, compilation(*scanner, *self, *chunk)) == target,
            invariant
                src == source.spec_bytes(),
                scanner.wf(src),
                sound(src, *self, *chunk),
                *chunk == *old(chunk),
                self.previous_token == old(self).current_token,
                old(scanner).current <= scanner.current,
            ensures
                compilation(*scanner, *self, *chunk) == target,
                self.current_token is Some,
                self.current_token->0.kind != TokenKind::TokenEof ==> old(scanner).current
                    < scanner.current,
            decreases src.len() - scanner.current,
        {
            proof {
                lemma_scan_progress(src, scanner.current as int);
                lemma_token_in(src, scanner.current as int);
            }
            let token = scanner.scan_token(source);
            self.current_token = Some(token);
            match token.kind {
                TokenKind::TokenError(reason) => {
                    self.error_at_current(Message::Unreadable(reason));
                },
                _ => {
                    break ;
                },
            }
        }
    }

    /// Requires the token ahead to be of the given kind: consumes it if it
    /// is, and reports the message at it if it is not.
    fn consume(
        &mut self,
        source: &str,
        token_kind: TokenKind,
        msg: Message,
        scanner: &mut Scanner,
        chunk: &mut Chunk,
    )
        requires
            old(scanner).wf(source.spec_bytes()),
            sound(source.spec_bytes(), *old(self), *old(chunk)),
            old(self).current_token is Some,
        ensures
            final(scanner).wf(source.spec_bytes()),
            sound(source.spec_bytes(), *final(self), *final(chunk)),
            final(chunk).extends(*old(chunk)),
            *final(chunk) == *old(chunk),
            final(self).current_token is Some,
            old(self).previous_token is Some ==> final(self).previous_token is Some,
            compilation(*final(scanner), *final(self), *final(chunk)) == consumed(
                source.spec_bytes(),
                compilation(*old(scanner), *old(self), *old(chunk)),
                token_kind,
                msg,
            ),
            remaining(
                source.spec_bytes(),
                compilation(*final(scanner), *final(self), *final(chunk)),
            ) <= remaining(
                source.spec_bytes(),
                compilation(*old(scanner), *old(self), *old(chunk)),
            ),
    {
        match self.current_token {
            Some(token) => {
                if token.kind == token_kind {
                    self.advance(source, scanner, chunk);
                } else {
                    self.error_at_current(msg);
                }
            },
            None => {},
        }
    }

    /// Reports the message at the token ahead.
    fn error_at_current(&mut self, message: Message)
        requires
            old(self).current_token is Some,
        ensures
            *final(self) == reported(*old(self), old(self).current_token->0, message),
    {
        match self.current_token {
            Some(token) => self.error_at(token, message),
            None => {},
        }
    }

    /// Reports the message at the token last consumed.
    fn error_at_prev(&mut self, message: Message)
        requires
            old(self).previous_token is Some,
        ensures
            *final(self) == reported(*old(self), old(self).previous_token->0, message),
    {
        match self.previous_token {
            Some(token) => self.error_at(token, message),
            None => {},
        }
    }

    /// Records an error at the token, unless one has been recorded before:
    /// the first error of a compilation sets panic mode, and in panic mode
    /// nothing more is reported. The diagnostic holds the token's line, where
    /// it points (the end of the source, unreadable text, or the token's
    /// span) and the message.
    fn error_at(&mut self, tok: Token, message: Message)
        ensures
            *final(self) == reported(*old(self), tok, message),
    {
        if self.panic_mode {
            return ;
        }
        self.panic_mode = true;
        let place = match tok.kind {
            TokenKind::TokenEof => Place::End,
            TokenKind::TokenError(_) => Place::Lexical,
            _ => Place::Span(tok.start, tok.length),
        };
        self.diagnostic = Some(Diagnostic { line: tok.line, place, message });
        self.had_error = true;
    }

    /// Compiles the number last consumed: its literal joins the constant
    /// pool, and the instruction that loads it is emitted.
    fn number(&self, chunk: &mut Chunk)
        requires
            old(chunk).wf(),
            self.previous_token is Some,
        ensures
            final(chunk).wf(),
            final(chunk).extends(*old(chunk)),
            final(chunk).code@ == old(chunk).code@.push(
                OpCode::OpConstant(literal_of(self.previous_token->0)),
            ),
            final(chunk).lines@ == old(chunk).lines@.push(self.previous_token->0.line),
            final(chunk).constants@ == old(chunk).constants@.push(
                literal_of(self.previous_token->0),
            ),
    {
        match self.previous_token {
            Some(x) => {
                let byte = chunk.add_constant(Literal { start: x.start, length: x.length });
                self.emit_byte(chunk, byte);
            },
            None => {},
        }
    }

    /// Parses one expression whose operators all bind at least as tightly
    /// as `precede`.
    fn parse_precedence(
        &mut self,
        precede: u8,
        source: &str,
        scanner: &mut Scanner,
        chunk: &mut Chunk,
    )
        requires
            old(scanner).wf(source.spec_bytes()),
            sound(source.spec_bytes(), *old(self), *old(chunk)),
            old(self).current_token is Some,
        ensures
            final(scanner).wf(source.spec_bytes()),
            sound(source.spec_bytes(), *final(self), *final(chunk)),
            final(chunk).extends(*old(chunk)),
            final(self).current_token is Some,
            final(self).previous_token is Some,
            compilation(*final(scanner), *final(self), *final(chunk)) == parsed(
                source.spec_bytes(),
                compilation(*old(scanner), *old(self), *old(chunk)),
                precede,
            ),
            remaining(
                source.spec_bytes(),
                compilation(*final(scanner), *final(self), *final(chunk)),
            ) <= remaining(
                source.spec_bytes(),
                compilation(*old(scanner), *old(self), *old(chunk)),
            ),
        decreases
            remaining(source.spec_bytes(), compilation(*old(scanner), *old(self), *old(chunk))),
            3nat,
    {
        let ghost src = source.spec_bytes();
        let ghost start = compilation(*scanner, *self, *chunk);
        self.advance(source, scanner, chunk);
        let owner = match self.previous_token {
            Some(token) => token.kind,
            None => TokenKind::TokenEof,
        };
        let (prefix, _, _) = parse_rule(owner);
        match prefix {
            ParseFn::Unary => self.unary(source, scanner, chunk),
            ParseFn::Grouping => self.grouping(source, scanner, chunk),
            ParseFn::Number => self.number(chunk),
            _ => self.error_at_prev(Message::ExpectExpression),
        }
        loop
            invariant_except_break
                infix_parsed(src, compilation(*scanner, *self, *chunk), precede) == parsed(
                    src,
                    start,
                    precede,
                ),
            invariant
                src == source.spec_bytes(),
                start == compilation(*old(scanner), *old(self), *old(chunk)),
                scanner.wf(src),
                sound(src, *self, *chunk),
                chunk.extends(*old(chunk)),
                self.current_token is Some,
                self.previous_token is Some,
                remaining(src, compilation(*scanner, *self, *chunk)) <= remaining(src, start),
            ensures
                compilation(*scanner, *self, *chunk) == parsed(src, start, precede),
            decreases remaining(src, compilation(*scanner, *self, *chunk)),
        {
            let owner = match self.current_token {
                Some(token) => token.kind,
                None => TokenKind::TokenEof,
            };
            let (_, infix, prec) = parse_rule(owner);
            if infix != ParseFn::Binary || precede > prec {
                break ;
            }
            self.advance(source, scanner, chunk);
            self.binary(source, scanner, chunk);
        }
    }

    /// Emits one instruction, tagged with the line of the token last
    /// consumed.
    fn emit_byte(&self, chunk: &mut Chunk, byte: OpCode)
        requires
            old(chunk).wf(),
            self.previous_token is Some,
        ensures
            final(chunk).wf(),
            final(chunk).extends(*old(chunk)),
            final(chunk).code@ == old(chunk).code@.push(byte),
            final(chunk).lines@ == old(chunk).lines@.push(self.previous_token->0.line),
            final(chunk).constants@ == old(chunk).constants@,
    {
        match self.previous_token {
            Some(token) => chunk.write_chunk(byte, token.line),
            None => {},
        }
    }

    /// Emits the instruction that ends a chunk.
    fn emit_return(&self, chunk: &mut Chunk)
        requires
            old(chunk).wf(),
            self.previous_token is Some,
        ensures
            final(chunk).wf(),
            final(chunk).extends(*old(chunk)),
            final(chunk).code@ == old(chunk).code@.push(OpCode::OpReturn),
            final(chunk).lines@ == old(chunk).lines@.push(self.previous_token->0.line),
            final(chunk).constants@ == old(chunk).constants@,
    {
        self.emit_byte(chunk, OpCode::OpReturn);
    }

    /// Parses a whole expression.
    fn expression(&mut self, source: &str, scanner: &mut Scanner, chunk: &mut Chunk)
        requires
            old(scanner).wf(source.spec_bytes()),
            sound(source.spec_bytes(), *old(self), *old(chunk)),
            old(self).current_token is Some,
        ensures
            final(scanner).wf(source.spec_bytes()),
            sound(source.spec_bytes(), *final(self), *final(chunk)),
            final(chunk).extends(*old(chunk)),
            final(self).current_token is Some,
            final(self).previous_token is Some,
            compilation(*final(scanner), *final(self), *final(chunk)) == expression_parsed(
                source.spec_bytes(),
                compilation(*old(scanner), *old(self), *old(chunk)),
            ),
            remaining(
                source.spec_bytes(),
                compilation(*final(scanner), *final(self), *final(chunk)),
            ) <= remaining(
                source.spec_bytes(),
                compilation(*old(scanner), *old(self), *old(chunk)),
            ),
        decreases
            remaining(source.spec_bytes(), compilation(*old(scanner), *old(self), *old(chunk))),
            4nat,
    {
        self.parse_precedence(PREC_ASSIGNMENT, source, scanner, chunk);
    }

    /// Parses the operand of the unary operator last consumed, then emits
    /// the negation if the operator was `-`.
    fn unary(&mut self, source: &str, scanner: &mut Scanner, chunk: &mut Chunk)
        requires
            old(scanner).wf(source.spec_bytes()),
            sound(source.spec_bytes(), *old(self), *old(chunk)),
            old(self).current_token is Some,
            old(self).previous_token is Some,
        ensures
            final(scanner).wf(source.spec_bytes()),
            sound(source.spec_bytes(), *final(self), *final(chunk)),
            final(chunk).extends(*old(chunk)),
            final(self).current_token is Some,
            final(self).previous_token is Some,
            compilation(*final(scanner), *final(self), *final(chunk)) == unary_parsed(
                source.spec_bytes(),
                compilation(*old(scanner), *old(self), *old(chunk)),
            ),
            remaining(
                source.spec_bytes(),
                compilation(*final(scanner), *final(self), *final(chunk)),
            ) <= remaining(
                source.spec_bytes(),
                compilation(*old(scanner), *old(self), *old(chunk)),
            ),
        decreases
            remaining(source.spec_bytes(), compilation(*old(scanner), *old(self), *old(chunk))),
            4nat,
    {
        let token_kind = match self.previous_token {
            Some(token) => token.kind,
            None => TokenKind::TokenEof,
        };
        self.parse_precedence(PREC_UNARY, source, scanner, chunk);
        if token_kind == TokenKind::TokenMinus {
            self.emit_byte(chunk, OpCode::OpNegate);
        }
    }

    /// Parses the right operand of the binary operator last consumed, one
    /// level above the operator's own precedence, so that operators of one
    /// level group to the left; then emits the operator's instruction.
    fn binary(&mut self, source: &str, scanner: &mut Scanner, chunk: &mut Chunk)
        requires
            old(scanner).wf(source.spec_bytes()),
            sound(source.spec_bytes(), *old(self), *old(chunk)),
            old(self).current_token is Some,
            old(self).previous_token is Some,
        ensures
            final(scanner).wf(source.spec_bytes()),
            sound(source.spec_bytes(), *final(self), *final(chunk)),
            final(chunk).extends(*old(chunk)),
            final(self).current_token is Some,
            final(self).previous_token is Some,
            compilation(*final(scanner), *final(self), *final(chunk)) == binary_parsed(
                source.spec_bytes(),
                compilation(*old(scanner), *old(self), *old(chunk)),
            ),
            remaining(
                source.spec_bytes(),
                compilation(*final(scanner), *final(self), *final(chunk)),
            ) <= remaining(
                source.spec_bytes(),
                compilation(*old(scanner), *old(self), *old(chunk)),
            ),
        decreases
            remaining(source.spec_bytes(), compilation(*old(scanner), *old(self), *old(chunk))),
            4nat,
    {
        let token_kind = match self.previous_token {
            Some(token) => token.kind,
            None => TokenKind::TokenEof,
        };
        let (_, _, prec) = parse_rule(token_kind);
        self.parse_precedence(prec + 1, source, scanner, chunk);
        match token_kind {
            TokenKind::TokenPlus => self.emit_byte(chunk, OpCode::OpAdd),
            TokenKind::TokenMinus => self.emit_byte(chunk, OpCode::OpSubtract),
            TokenKind::TokenSlash => self.emit_byte(chunk, OpCode::OpDivide),
            TokenKind::TokenStar => self.emit_byte(chunk, OpCode::OpMultiply),
            _ => {},
        }
    }

    /// Parses the expression of a group and requires the parenthesis that
    /// closes it.
    fn grouping(&mut self, source: &str, scanner: &mut Scanner, chunk: &mut Chunk)
        requires
            old(scanner).wf(source.spec_bytes()),
            sound(source.spec_bytes(), *old(self), *old(chunk)),
            old(self).current_token is Some,
        ensures
            final(scanner).wf(source.spec_bytes()),
            sound(source.spec_bytes(), *final(self), *final(chunk)),
            final(chunk).extends(*old(chunk)),
            final(self).current_token is Some,
            final(self).previous_token is Some,
            compilation(*final(scanner), *final(self), *final(chunk)) == grouping_parsed(
                source.spec_bytes(),
                compilation(*old(scanner), *old(self), *old(chunk)),
            ),
            remaining(
                source.spec_bytes(),
                compilation(*final(scanner), *final(self), *final(chunk)),
            ) <= remaining(
                source.spec_bytes(),
                compilation(*old(scanner), *old(self), *old(chunk)),
            ),
        decreases
            remaining(source.spec_bytes(), compilation(*old(scanner), *old(self), *old(chunk))),
            5nat,
    {
        self.expression(source, scanner, chunk);
        self.consume(
            source,
            TokenKind::TokenRightParen,
            Message::ExpectRightParen,
            scanner,
            chunk,
        );
    }
}

/// Compiles the source into the chunk: fetches the first token, parses one
/// expression, requires the end of the input and emits the final `OpReturn`.
/// Returns whether no error was recorded. The first error is left in the
/// parser's `diagnostic`.
///
/// What is emitted is what [`compiled`] says, instruction for instruction.
/// Whatever the source holds, the chunk stays well formed, every literal in
/// it is a numeral that lies in the source, and every line in it is a line
/// of the source.
pub fn compile(source: &str, chunk: &mut Chunk, parser: &mut Parser, scanner: &mut Scanner) -> (ok:
    bool)
    requires
        old(scanner).wf(source.spec_bytes()),
        sound(source.spec_bytes(), *old(parser), *old(chunk)),
    ensures
        final(scanner).wf(source.spec_bytes()),
        sound(source.spec_bytes(), *final(parser), *final(chunk)),
        final(chunk).extends(*old(chunk)),
        compilation(*final(scanner), *final(parser), *final(chunk)) == compiled(
            source.spec_bytes(),
            compilation(*old(scanner), *old(parser), *old(chunk)),
        ),
        ok == !final(parser).had_error,
        final(chunk).code@.len() > old(chunk).code@.len(),
        final(chunk).code@.last() == OpCode::OpReturn,
{
    parser.advance(source, scanner, chunk);
    parser.expression(source, scanner, chunk);
    parser.consume(source, TokenKind::TokenEof, Message::ExpectEnd, scanner, chunk);
    parser.emit_return(chunk);
    !parser.had_error
}

} // verus!
