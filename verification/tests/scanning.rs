use exprvm::scanner::{LexError, Scanner, Token, TokenKind};

fn tokens(source: &str) -> Vec<Token> {
    let mut scanner = Scanner::init_scanner();
    let mut found = Vec::new();
    loop {
        let token = scanner.scan_token(source);
        found.push(token);
        if token.kind == TokenKind::TokenEof {
            return found;
        }
    }
}

fn kinds(source: &str) -> Vec<TokenKind> {
    tokens(source).iter().map(|token| token.kind).collect()
}

#[test]
fn fresh_scanner_stands_at_the_start() {
    let scanner = Scanner::init_scanner();
    assert_eq!(scanner, Scanner { start: 0, current: 0, line: 1 });
}

#[test]
fn empty_source_yields_eof() {
    assert_eq!(
        tokens(""),
        vec![Token { kind: TokenKind::TokenEof, start: 0, length: 0, line: 1 }]
    );
}

#[test]
fn blank_source_yields_only_eof() {
    let source = "  \t\r\n# a comment\n   # another # one\n\n";
    assert_eq!(
        tokens(source),
        vec![Token { kind: TokenKind::TokenEof, start: source.len(), length: 0, line: 5 }]
    );
}

#[test]
fn comment_without_line_feed_runs_to_the_end() {
    assert_eq!(kinds("1 # + 2"), vec![TokenKind::TokenNumber, TokenKind::TokenEof]);
}

#[test]
fn eof_is_yielded_again_after_the_end() {
    let mut scanner = Scanner::init_scanner();
    let first = scanner.scan_token("7");
    assert_eq!(first.kind, TokenKind::TokenNumber);
    let end = scanner.scan_token("7");
    let again = scanner.scan_token("7");
    assert_eq!(end.kind, TokenKind::TokenEof);
    assert_eq!(again, end);
}

#[test]
fn punctuation_is_scanned() {
    assert_eq!(
        kinds("( ) { } , . - + ; / *"),
        vec![
            TokenKind::TokenLeftParen,
            TokenKind::TokenRightParen,
            TokenKind::TokenLeftBrace,
            TokenKind::TokenRightBrace,
            TokenKind::TokenComma,
            TokenKind::TokenPeriod,
            TokenKind::TokenMinus,
            TokenKind::TokenPlus,
            TokenKind::TokenSemiColon,
            TokenKind::TokenSlash,
            TokenKind::TokenStar,
            TokenKind::TokenEof,
        ]
    );
}

#[test]
fn comparison_operators_take_one_byte_of_lookahead() {
    assert_eq!(
        kinds("! != = == < <= > >="),
        vec![
            TokenKind::TokenBang,
            TokenKind::TokenBangEqual,
            TokenKind::TokenEqual,
            TokenKind::TokenEqualEqual,
            TokenKind::TokenLess,
            TokenKind::TokenLessEqual,
            TokenKind::TokenGreater,
            TokenKind::TokenGreaterEqual,
            TokenKind::TokenEof,
        ]
    );
    assert_eq!(
        kinds("==="),
        vec![TokenKind::TokenEqualEqual, TokenKind::TokenEqual, TokenKind::TokenEof]
    );
}

#[test]
fn keywords_have_their_own_kinds() {
    assert_eq!(
        kinds("and class else false for fun if nil or print return super this true while"),
        vec![
            TokenKind::TokenAnd,
            TokenKind::TokenClass,
            TokenKind::TokenElse,
            TokenKind::TokenFalse,
            TokenKind::TokenFor,
            TokenKind::TokenFun,
            TokenKind::TokenIf,
            TokenKind::TokenNil,
            TokenKind::TokenOr,
            TokenKind::TokenPrint,
            TokenKind::TokenReturn,
            TokenKind::TokenSuper,
            TokenKind::TokenThis,
            TokenKind::TokenTrue,
            TokenKind::TokenWhile,
            TokenKind::TokenEof,
        ]
    );
}

#[test]
fn other_words_are_identifiers() {
    assert_eq!(
        kinds("f t fo tr an andy _and classes whil var x1 If"),
        vec![
            TokenKind::TokenIdentifier,
            TokenKind::TokenIdentifier,
            TokenKind::TokenIdentifier,
            TokenKind::TokenIdentifier,
            TokenKind::TokenIdentifier,
            TokenKind::TokenIdentifier,
            TokenKind::TokenIdentifier,
            TokenKind::TokenIdentifier,
            TokenKind::TokenIdentifier,
            TokenKind::TokenIdentifier,
            TokenKind::TokenIdentifier,
            TokenKind::TokenIdentifier,
            TokenKind::TokenEof,
        ]
    );
}

#[test]
fn identifier_takes_the_maximal_run() {
    assert_eq!(
        tokens("  foo_9bar+"),
        vec![
            Token { kind: TokenKind::TokenIdentifier, start: 2, length: 8, line: 1 },
            Token { kind: TokenKind::TokenPlus, start: 10, length: 1, line: 1 },
            Token { kind: TokenKind::TokenEof, start: 11, length: 0, line: 1 },
        ]
    );
}

#[test]
fn numbers_with_and_without_fraction() {
    assert_eq!(
        tokens("12 3.25"),
        vec![
            Token { kind: TokenKind::TokenNumber, start: 0, length: 2, line: 1 },
            Token { kind: TokenKind::TokenNumber, start: 3, length: 4, line: 1 },
            Token { kind: TokenKind::TokenEof, start: 7, length: 0, line: 1 },
        ]
    );
}

#[test]
fn trailing_point_is_not_part_of_the_number() {
    assert_eq!(
        tokens("7."),
        vec![
            Token { kind: TokenKind::TokenNumber, start: 0, length: 1, line: 1 },
            Token { kind: TokenKind::TokenPeriod, start: 1, length: 1, line: 1 },
            Token { kind: TokenKind::TokenEof, start: 2, length: 0, line: 1 },
        ]
    );
    assert_eq!(
        kinds("7.x"),
        vec![
            TokenKind::TokenNumber,
            TokenKind::TokenPeriod,
            TokenKind::TokenIdentifier,
            TokenKind::TokenEof
        ]
    );
}

#[test]
fn second_point_ends_the_number() {
    assert_eq!(
        tokens("1.2.3"),
        vec![
            Token { kind: TokenKind::TokenNumber, start: 0, length: 3, line: 1 },
            Token { kind: TokenKind::TokenPeriod, start: 3, length: 1, line: 1 },
            Token { kind: TokenKind::TokenNumber, start: 4, length: 1, line: 1 },
            Token { kind: TokenKind::TokenEof, start: 5, length: 0, line: 1 },
        ]
    );
}

#[test]
fn letter_behind_a_number_is_an_error() {
    assert_eq!(
        tokens("12ab"),
        vec![
            Token {
                kind: TokenKind::TokenError(LexError::IdentifierStartsWithDigit),
                start: 0,
                length: 2,
                line: 1
            },
            Token { kind: TokenKind::TokenIdentifier, start: 2, length: 2, line: 1 },
            Token { kind: TokenKind::TokenEof, start: 4, length: 0, line: 1 },
        ]
    );
    assert_eq!(
        kinds("1.5_")[0],
        TokenKind::TokenError(LexError::IdentifierStartsWithDigit)
    );
}

#[test]
fn strings_run_to_the_closing_quote() {
    assert_eq!(
        tokens("\"ab\ncd\" +"),
        vec![
            Token { kind: TokenKind::TokenString, start: 0, length: 7, line: 2 },
            Token { kind: TokenKind::TokenPlus, start: 8, length: 1, line: 2 },
            Token { kind: TokenKind::TokenEof, start: 9, length: 0, line: 2 },
        ]
    );
}

#[test]
fn unterminated_string_is_an_error() {
    assert_eq!(
        tokens("\"abc\n"),
        vec![
            Token {
                kind: TokenKind::TokenError(LexError::UnterminatedString),
                start: 0,
                length: 5,
                line: 2
            },
            Token { kind: TokenKind::TokenEof, start: 5, length: 0, line: 2 },
        ]
    );
}

#[test]
fn unexpected_character_is_an_error() {
    assert_eq!(
        tokens("1 @ 2"),
        vec![
            Token { kind: TokenKind::TokenNumber, start: 0, length: 1, line: 1 },
            Token {
                kind: TokenKind::TokenError(LexError::UnexpectedCharacter),
                start: 2,
                length: 1,
                line: 1
            },
            Token { kind: TokenKind::TokenNumber, start: 4, length: 1, line: 1 },
            Token { kind: TokenKind::TokenEof, start: 5, length: 0, line: 1 },
        ]
    );
}

#[test]
fn character_of_several_bytes_is_one_error_token() {
    let source = "\u{e9}\u{20ac}+";
    assert_eq!(
        tokens(source),
        vec![
            Token {
                kind: TokenKind::TokenError(LexError::UnexpectedCharacter),
                start: 0,
                length: 2,
                line: 1
            },
            Token {
                kind: TokenKind::TokenError(LexError::UnexpectedCharacter),
                start: 2,
                length: 3,
                line: 1
            },
            Token { kind: TokenKind::TokenPlus, start: 5, length: 1, line: 1 },
            Token { kind: TokenKind::TokenEof, start: 6, length: 0, line: 1 },
        ]
    );
}

#[test]
fn lines_are_counted() {
    assert_eq!(
        tokens("1\n+ # plus\n\n2"),
        vec![
            Token { kind: TokenKind::TokenNumber, start: 0, length: 1, line: 1 },
            Token { kind: TokenKind::TokenPlus, start: 2, length: 1, line: 2 },
            Token { kind: TokenKind::TokenNumber, start: 12, length: 1, line: 4 },
            Token { kind: TokenKind::TokenEof, start: 13, length: 0, line: 4 },
        ]
    );
}

#[test]
fn advance_consumes_one_byte() {
    let mut scanner = Scanner::init_scanner();
    assert_eq!(scanner.advance("ab"), b'a');
    assert_eq!(scanner.advance("ab"), b'b');
    assert_eq!(scanner, Scanner { start: 0, current: 2, line: 1 });
}

#[test]
fn error_token_spans_the_text_at_hand() {
    let scanner = Scanner { start: 3, current: 7, line: 2 };
    assert_eq!(
        scanner.error_token(LexError::UnexpectedCharacter),
        Token {
            kind: TokenKind::TokenError(LexError::UnexpectedCharacter),
            start: 3,
            length: 4,
            line: 2
        }
    );
}

#[test]
fn cursor_only_moves_forward() {
    let source = "(1 + 22) * \"s\" abc # end";
    let mut scanner = Scanner::init_scanner();
    let mut before = scanner;
    loop {
        let token = scanner.scan_token(source);
        assert!(scanner.current >= scanner.start);
        assert!(scanner.current >= before.current);
        assert!(scanner.line >= before.line);
        assert_eq!(token.start + token.length, scanner.current);
        if token.kind == TokenKind::TokenEof {
            break;
        }
        assert!(scanner.current > before.current);
        before = scanner;
    }
}
