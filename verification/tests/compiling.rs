use exprvm::chunk::{Chunk, OpCode};
use exprvm::compiler::{compile, Diagnostic, Message, Parser, Place};
use exprvm::scanner::{LexError, Scanner};
use exprvm::value::Literal;

fn compiled(source: &str) -> (bool, Chunk, Parser) {
    let mut chunk = Chunk::init_chunk();
    let mut parser = Parser::init_parser();
    let mut scanner = Scanner::init_scanner();
    let ok = compile(source, &mut chunk, &mut parser, &mut scanner);
    (ok, chunk, parser)
}

fn constant(start: usize, length: usize) -> OpCode {
    OpCode::OpConstant(Literal { start, length })
}

#[test]
fn fresh_parser_has_seen_nothing() {
    let parser = Parser::init_parser();
    assert_eq!(parser.previous_token, None);
    assert_eq!(parser.current_token, None);
    assert!(!parser.had_error);
    assert!(!parser.panic_mode);
    assert_eq!(parser.diagnostic, None);
}

#[test]
fn single_number_compiles_to_constant_and_return() {
    let (ok, chunk, parser) = compiled("42");
    assert!(ok);
    assert!(!parser.had_error);
    assert_eq!(chunk.code, vec![constant(0, 2), OpCode::OpReturn]);
    assert_eq!(chunk.lines, vec![1, 1]);
    assert_eq!(chunk.constants.values, vec![Literal { start: 0, length: 2 }]);
}

#[test]
fn subtraction_keeps_operand_order() {
    let (ok, chunk, _) = compiled("5 - 2");
    assert!(ok);
    assert_eq!(chunk.code, vec![constant(0, 1), constant(4, 1), OpCode::OpSubtract, OpCode::OpReturn]);
}

#[test]
fn operators_of_one_level_group_to_the_left() {
    let (ok, chunk, _) = compiled("8 - 3 - 2");
    assert!(ok);
    assert_eq!(
        chunk.code,
        vec![
            constant(0, 1),
            constant(4, 1),
            OpCode::OpSubtract,
            constant(8, 1),
            OpCode::OpSubtract,
            OpCode::OpReturn
        ]
    );
    let (ok, chunk, _) = compiled("8 / 4 * 2");
    assert!(ok);
    assert_eq!(
        chunk.code,
        vec![
            constant(0, 1),
            constant(4, 1),
            OpCode::OpDivide,
            constant(8, 1),
            OpCode::OpMultiply,
            OpCode::OpReturn
        ]
    );
}

#[test]
fn factor_binds_tighter_than_term() {
    let (ok, chunk, _) = compiled("2 + 3 * 4");
    assert!(ok);
    assert_eq!(
        chunk.code,
        vec![
            constant(0, 1),
            constant(4, 1),
            constant(8, 1),
            OpCode::OpMultiply,
            OpCode::OpAdd,
            OpCode::OpReturn
        ]
    );
}

#[test]
fn grouping_overrides_precedence() {
    let (ok, chunk, _) = compiled("(2 + 3) * 4");
    assert!(ok);
    assert_eq!(
        chunk.code,
        vec![
            constant(1, 1),
            constant(5, 1),
            OpCode::OpAdd,
            constant(10, 1),
            OpCode::OpMultiply,
            OpCode::OpReturn
        ]
    );
}

#[test]
fn unary_minus_negates_its_operand_only() {
    let (ok, chunk, _) = compiled("-(3 + 4)");
    assert!(ok);
    assert_eq!(
        chunk.code,
        vec![constant(2, 1), constant(6, 1), OpCode::OpAdd, OpCode::OpNegate, OpCode::OpReturn]
    );
    let (ok, chunk, _) = compiled("-3 + 4");
    assert!(ok);
    assert_eq!(
        chunk.code,
        vec![constant(1, 1), OpCode::OpNegate, constant(5, 1), OpCode::OpAdd, OpCode::OpReturn]
    );
    let (ok, chunk, _) = compiled("2 * - - 1.5");
    assert!(ok);
    assert_eq!(
        chunk.code,
        vec![
            constant(0, 1),
            constant(8, 3),
            OpCode::OpNegate,
            OpCode::OpNegate,
            OpCode::OpMultiply,
            OpCode::OpReturn
        ]
    );
}

#[test]
fn instruction_count_is_literals_plus_operators_plus_one() {
    for (source, literals, operators) in [
        ("1", 1, 0),
        ("-1", 1, 1),
        ("1 + 2", 2, 1),
        ("(1)", 1, 0),
        ("((1 + 2) * (3 - 4)) / -5", 5, 5),
        ("1 + 2 * 3 - 4 / 5", 5, 4),
        ("- - - 2.5", 1, 3),
        ("# sum\n1 +\n 2 # done", 2, 1),
    ] {
        let (ok, chunk, parser) = compiled(source);
        assert!(ok, "{}", source);
        assert!(!parser.had_error, "{}", source);
        assert_eq!(chunk.code.len(), literals + operators + 1, "{}", source);
        assert_eq!(chunk.lines.len(), chunk.code.len(), "{}", source);
        assert_eq!(chunk.count, chunk.code.len(), "{}", source);
        assert_eq!(chunk.constants.values.len(), literals, "{}", source);
        assert_eq!(chunk.code.last(), Some(&OpCode::OpReturn), "{}", source);
    }
}

#[test]
fn constants_join_the_pool_in_order() {
    let (ok, chunk, _) = compiled("10 * (2.5 + 300)");
    assert!(ok);
    assert_eq!(
        chunk.constants.values,
        vec![
            Literal { start: 0, length: 2 },
            Literal { start: 6, length: 3 },
            Literal { start: 12, length: 3 }
        ]
    );
    assert_eq!(chunk.constants.count, 3);
}

#[test]
fn instructions_carry_the_line_of_their_token() {
    let (ok, chunk, _) = compiled("1 +\n2 *\n\n3");
    assert!(ok);
    assert_eq!(
        chunk.code,
        vec![
            constant(0, 1),
            constant(4, 1),
            constant(9, 1),
            OpCode::OpMultiply,
            OpCode::OpAdd,
            OpCode::OpReturn
        ]
    );
    assert_eq!(chunk.lines, vec![1, 2, 4, 4, 4, 4]);
}

#[test]
fn negation_carries_the_line_of_the_operand_end() {
    let (ok, chunk, _) = compiled("-\n(1\n)");
    assert!(ok);
    assert_eq!(chunk.code, vec![constant(3, 1), OpCode::OpNegate, OpCode::OpReturn]);
    assert_eq!(chunk.lines, vec![2, 3, 3]);
}

#[test]
fn missing_close_paren_is_an_error() {
    let (ok, chunk, parser) = compiled("(1 + 2");
    assert!(!ok);
    assert!(parser.had_error);
    assert!(parser.panic_mode);
    assert_eq!(
        parser.diagnostic,
        Some(Diagnostic { line: 1, place: Place::End, message: Message::ExpectRightParen })
    );
    assert_eq!(chunk.lines.len(), chunk.code.len());
}

#[test]
fn empty_source_expects_an_expression() {
    let (ok, chunk, parser) = compiled("");
    assert!(!ok);
    assert_eq!(
        parser.diagnostic,
        Some(Diagnostic { line: 1, place: Place::End, message: Message::ExpectExpression })
    );
    assert_eq!(chunk.code, vec![OpCode::OpReturn]);
}

#[test]
fn operator_without_operand_expects_an_expression() {
    let (ok, _, parser) = compiled("1 + * 2");
    assert!(!ok);
    assert_eq!(
        parser.diagnostic,
        Some(Diagnostic { line: 1, place: Place::Span(4, 1), message: Message::ExpectExpression })
    );
    let (ok, _, parser) = compiled("1 +");
    assert!(!ok);
    assert_eq!(
        parser.diagnostic,
        Some(Diagnostic { line: 1, place: Place::End, message: Message::ExpectExpression })
    );
}

#[test]
fn text_behind_the_expression_is_an_error() {
    let (ok, _, parser) = compiled("1 2");
    assert!(!ok);
    assert_eq!(
        parser.diagnostic,
        Some(Diagnostic { line: 1, place: Place::Span(2, 1), message: Message::ExpectEnd })
    );
    let (ok, _, parser) = compiled("(1))");
    assert!(!ok);
    assert_eq!(
        parser.diagnostic,
        Some(Diagnostic { line: 1, place: Place::Span(3, 1), message: Message::ExpectEnd })
    );
}

#[test]
fn unreadable_text_is_an_error() {
    let (ok, _, parser) = compiled("1 +\n @ 2");
    assert!(!ok);
    assert_eq!(
        parser.diagnostic,
        Some(Diagnostic {
            line: 2,
            place: Place::Lexical,
            message: Message::Unreadable(LexError::UnexpectedCharacter)
        })
    );
    let (ok, _, parser) = compiled("\"abc");
    assert!(!ok);
    assert_eq!(
        parser.diagnostic.map(|diagnostic| diagnostic.message),
        Some(Message::Unreadable(LexError::UnterminatedString))
    );
    let (ok, _, parser) = compiled("3x");
    assert!(!ok);
    assert_eq!(
        parser.diagnostic.map(|diagnostic| diagnostic.message),
        Some(Message::Unreadable(LexError::IdentifierStartsWithDigit))
    );
}

#[test]
fn only_the_first_error_is_kept() {
    let (ok, _, parser) = compiled("@ ) ) (");
    assert!(!ok);
    assert_eq!(
        parser.diagnostic,
        Some(Diagnostic {
            line: 1,
            place: Place::Lexical,
            message: Message::Unreadable(LexError::UnexpectedCharacter)
        })
    );
}

#[test]
fn keywords_and_identifiers_start_no_expression() {
    for source in ["x", "print 1", "nil", "\"text\"", "1 == 1", "{1}"] {
        let (ok, chunk, parser) = compiled(source);
        assert!(!ok, "{}", source);
        assert!(parser.had_error, "{}", source);
        assert_eq!(chunk.lines.len(), chunk.code.len(), "{}", source);
    }
}

#[test]
fn compiling_always_ends_in_return() {
    for source in ["", "(", ")", "1 +", "((((", "- - -", "1 2 3", "@@@"] {
        let (_, chunk, _) = compiled(source);
        assert_eq!(chunk.code.last(), Some(&OpCode::OpReturn), "{}", source);
        assert_eq!(chunk.count, chunk.code.len(), "{}", source);
    }
}

#[test]
fn every_literal_is_a_numeral_of_the_source() {
    for source in ["1", "12.50 + 007", "(3.25", "1 + @ 2.5.7", "9 9 9", "-(0.1 * 20) / 4 # 5"] {
        let (_, chunk, _) = compiled(source);
        for op in &chunk.code {
            if let OpCode::OpConstant(literal) = op {
                let text = &source[literal.start..literal.start + literal.length];
                assert!(text.parse::<f64>().is_ok(), "{} in {}", text, source);
                assert!(text.bytes().all(|byte| byte.is_ascii_digit() || byte == b'.'));
            }
        }
        for literal in &chunk.constants.values {
            assert!(literal.start + literal.length <= source.len());
        }
    }
}

#[test]
fn every_line_is_a_line_of_the_source() {
    let source = "1 +\n\n(2 *\n3)\n";
    let (ok, chunk, _) = compiled(source);
    assert!(ok);
    assert_eq!(chunk.lines, vec![1, 3, 4, 4, 4, 5]);
    for line in &chunk.lines {
        assert!(1 <= *line && *line <= 5);
    }
}

#[test]
fn compiling_only_appends() {
    let mut chunk = Chunk::init_chunk();
    let earlier = chunk.add_constant(Literal { start: 0, length: 1 });
    chunk.write_chunk(earlier, 1);
    chunk.write_chunk(OpCode::OpNegate, 1);
    let mut parser = Parser::init_parser();
    let mut scanner = Scanner::init_scanner();
    assert!(compile("4 / 2", &mut chunk, &mut parser, &mut scanner));
    assert_eq!(
        chunk.code,
        vec![
            earlier,
            OpCode::OpNegate,
            constant(0, 1),
            constant(4, 1),
            OpCode::OpDivide,
            OpCode::OpReturn
        ]
    );
    assert_eq!(chunk.lines, vec![1, 1, 1, 1, 1, 1]);
    assert_eq!(chunk.constants.values.len(), 3);
    assert_eq!(chunk.constants.values[0], Literal { start: 0, length: 1 });
}
