//! The scanner: source text to tokens, one at a time and on demand.
//!
//! The scanner owns no text. It is a cursor into a source buffer that the
//! caller hands to every call, and a token is a kind, a span of that buffer
//! and a line number. What the scanner yields from a given place is a function
//! of the bytes alone: [`blank_end`] says where the next token starts,
//! [`lexeme_end`] where it ends and [`lexeme_kind`] what it is.

use vstd::prelude::*;
use vstd::string::StringSliceAdditionalSpecFns;

verus! {

/// What the scanner could not read.
#[derive(Debug, Clone, Copy, PartialEq, Eq, Hash, Structural)]
pub enum LexError {
    /// A character that starts no token.
    UnexpectedCharacter,
    /// A string that is still open where the source ends.
    UnterminatedString,
    /// A number with a letter or an underscore right behind it.
    IdentifierStartsWithDigit,
}

#[derive(Debug, Clone, Copy, PartialEq, Eq, Hash, Structural)]
pub enum TokenKind {
    TokenLeftParen,
    TokenRightParen,
    TokenLeftBrace,
    TokenRightBrace,
    TokenComma,
    TokenPeriod,
    TokenMinus,
    TokenPlus,
    TokenSemiColon,
    TokenSlash,
    TokenStar,
    TokenBang,
    TokenBangEqual,
    TokenEqual,
    TokenEqualEqual,
    TokenGreater,
    TokenGreaterEqual,
    TokenLess,
    TokenLessEqual,
    TokenIdentifier,
    TokenString,
    TokenNumber,
    TokenAnd,
    TokenClass,
    TokenElse,
    TokenFalse,
    TokenFor,
    TokenFun,
    TokenIf,
    TokenNil,
    TokenOr,
    TokenPrint,
    TokenReturn,
    TokenSuper,
    TokenThis,
    TokenTrue,
    /// Kept for the word `var`, which the keyword table does not hold: the
    /// scanner yields an identifier for it.
    TokenVar,
    TokenWhile,
    /// What could not be read, with the reason.
    TokenError(LexError),
    TokenEof,
}

/// A classified span of the source. `start` and `length` are in bytes;
/// `line` is the line on which the span ends, counted from one.
#[derive(Debug, Clone, Copy, PartialEq, Eq, Structural)]
pub struct Token {
    pub kind: TokenKind,
    pub length: usize,
    pub start: usize,
    pub line: i32,
}

/// The cursor: where the token at hand starts, how far the source has been
/// consumed, and the line of the byte at `current`.
#[derive(Debug, Clone, Copy, PartialEq, Eq, Structural)]
pub struct Scanner {
    pub start: usize,
    pub current: usize,
    pub line: i32,
}

pub open spec fn is_digit(c: u8) -> bool {
    '0' as u8 <= c <= '9' as u8
}

/// A letter or an underscore.
pub open spec fn is_alpha(c: u8) -> bool {
    ('a' as u8 <= c <= 'z' as u8) || ('A' as u8 <= c <= 'Z' as u8) || c == '_' as u8
}

pub open spec fn is_space(c: u8) -> bool {
    c == ' ' as u8 || c == '\r' as u8 || c == '\t' as u8 || c == '\n' as u8
}

/// A byte that continues a character of more than one byte.
pub open spec fn is_continuation(c: u8) -> bool {
    0x80 <= c <= 0xBF
}

/// The number of line feeds among the first `upto` bytes.
pub open spec fn newlines(src: Seq<u8>, upto: int) -> nat
    decreases upto,
{
    if upto <= 0 {
        0
    } else if upto <= src.len() && src[upto - 1] == '\n' as u8 {
        newlines(src, upto - 1) + 1
    } else {
        newlines(src, upto - 1)
    }
}

/// Where the whitespace and comments from `pos` on end: the place of the
/// first byte that is neither, or the end of the source. A comment runs from
/// `#` to the end of its line; `in_comment` says whether `pos` lies in one.
pub open spec fn blank_end(src: Seq<u8>, pos: int, in_comment: bool) -> int
    decreases src.len() - pos,
{
    if pos < 0 || pos >= src.len() {
        pos
    } else if in_comment {
        blank_end(src, pos + 1, src[pos] != '\n' as u8)
    } else if is_space(src[pos]) {
        blank_end(src, pos + 1, false)
    } else if src[pos] == '#' as u8 {
        blank_end(src, pos + 1, true)
    } else {
        pos
    }
}

/// Where the run of digits from `pos` on ends.
pub open spec fn digits_end(src: Seq<u8>, pos: int) -> int
    decreases src.len() - pos,
{
    if 0 <= pos < src.len() && is_digit(src[pos]) {
        digits_end(src, pos + 1)
    } else {
        pos
    }
}

/// Where the run of letters, digits and underscores from `pos` on ends.
pub open spec fn word_end(src: Seq<u8>, pos: int) -> int
    decreases src.len() - pos,
{
    if 0 <= pos < src.len() && (is_alpha(src[pos]) || is_digit(src[pos])) {
        word_end(src, pos + 1)
    } else {
        pos
    }
}

/// The place of the first double quote from `pos` on, or the end of the
/// source where there is none.
pub open spec fn quote_at(src: Seq<u8>, pos: int) -> int
    decreases src.len() - pos,
{
    if 0 <= pos < src.len() && src[pos] != '"' as u8 {
        quote_at(src, pos + 1)
    } else {
        pos
    }
}

/// Where the run of continuation bytes from `pos` on ends.
pub open spec fn continuation_end(src: Seq<u8>, pos: int) -> int
    decreases src.len() - pos,
{
    if 0 <= pos < src.len() && is_continuation(src[pos]) {
        continuation_end(src, pos + 1)
    } else {
        pos
    }
}

/// Where a number ends whose first digit stands right before `pos`: behind
/// the integer part, or behind the fraction where a point with a digit behind
/// it follows. A point with no digit behind it is not part of the number.
pub open spec fn number_end(src: Seq<u8>, pos: int) -> int {
    let whole = digits_end(src, pos);
    if whole + 1 < src.len() && src[whole] == '.' as u8 && is_digit(src[whole + 1]) {
        digits_end(src, whole + 1)
    } else {
        whole
    }
}

/// Whether the byte at `start` is one of `! = < >` with `=` right behind it.
pub open spec fn pairs_with_equal(src: Seq<u8>, start: int) -> bool {
    &&& 0 <= start && start + 1 < src.len()
    &&& src[start + 1] == '=' as u8
    &&& (src[start] == '!' as u8 || src[start] == '=' as u8 || src[start] == '<' as u8
        || src[start] == '>' as u8)
}

/// The kind of the token that is the one byte `c`, for the bytes that are a
/// token by themselves.
pub open spec fn single_kind(c: u8) -> Option<TokenKind> {
    if c == '(' as u8 {
        Some(TokenKind::TokenLeftParen)
    } else if c == ')' as u8 {
        Some(TokenKind::TokenRightParen)
    } else if c == '{' as u8 {
        Some(TokenKind::TokenLeftBrace)
    } else if c == '}' as u8 {
        Some(TokenKind::TokenRightBrace)
    } else if c == ';' as u8 {
        Some(TokenKind::TokenSemiColon)
    } else if c == ',' as u8 {
        Some(TokenKind::TokenComma)
    } else if c == '.' as u8 {
        Some(TokenKind::TokenPeriod)
    } else if c == '-' as u8 {
        Some(TokenKind::TokenMinus)
    } else if c == '+' as u8 {
        Some(TokenKind::TokenPlus)
    } else if c == '/' as u8 {
        Some(TokenKind::TokenSlash)
    } else if c == '*' as u8 {
        Some(TokenKind::TokenStar)
    } else if c == '!' as u8 {
        Some(TokenKind::TokenBang)
    } else if c == '=' as u8 {
        Some(TokenKind::TokenEqual)
    } else if c == '<' as u8 {
        Some(TokenKind::TokenLess)
    } else if c == '>' as u8 {
        Some(TokenKind::TokenGreater)
    } else {
        None
    }
}

/// The kind of the token made of `c` and the `=` behind it.
pub open spec fn paired_kind(c: u8) -> TokenKind {
    if c == '!' as u8 {
        TokenKind::TokenBangEqual
    } else if c == '=' as u8 {
        TokenKind::TokenEqualEqual
    } else if c == '<' as u8 {
        TokenKind::TokenLessEqual
    } else {
        TokenKind::TokenGreaterEqual
    }
}

/// The keyword table: the kind of each word that is a keyword, and
/// `TokenIdentifier` for every other word.
pub open spec fn keyword_kind(word: Seq<u8>) -> TokenKind {
    if word == seq!['a' as u8, 'n' as u8, 'd' as u8] {
        TokenKind::TokenAnd
    } else if word == seq!['c' as u8, 'l' as u8, 'a' as u8, 's' as u8, 's' as u8] {
        TokenKind::TokenClass
    } else if word == seq!['e' as u8, 'l' as u8, 's' as u8, 'e' as u8] {
        TokenKind::TokenElse
    } else if word == seq!['f' as u8, 'a' as u8, 'l' as u8, 's' as u8, 'e' as u8] {
        TokenKind::TokenFalse
    } else if word == seq!['f' as u8, 'o' as u8, 'r' as u8] {
        TokenKind::TokenFor
    } else if word == seq!['f' as u8, 'u' as u8, 'n' as u8] {
        TokenKind::TokenFun
    } else if word == seq!['i' as u8, 'f' as u8] {
        TokenKind::TokenIf
    } else if word == seq!['n' as u8, 'i' as u8, 'l' as u8] {
        TokenKind::TokenNil
    } else if word == seq!['o' as u8, 'r' as u8] {
        TokenKind::TokenOr
    } else if word == seq!['p' as u8, 'r' as u8, 'i' as u8, 'n' as u8, 't' as u8] {
        TokenKind::TokenPrint
    } else if word == seq!['r' as u8, 'e' as u8, 't' as u8, 'u' as u8, 'r' as u8, 'n' as u8] {
        TokenKind::TokenReturn
    } else if word == seq!['s' as u8, 'u' as u8, 'p' as u8, 'e' as u8, 'r' as u8] {
        TokenKind::TokenSuper
    } else if word == seq!['t' as u8, 'h' as u8, 'i' as u8, 's' as u8] {
        TokenKind::TokenThis
    } else if word == seq!['t' as u8, 'r' as u8, 'u' as u8, 'e' as u8] {
        TokenKind::TokenTrue
    } else if word == seq!['w' as u8, 'h' as u8, 'i' as u8, 'l' as u8, 'e' as u8] {
        TokenKind::TokenWhile
    } else {
        TokenKind::TokenIdentifier
    }
}

/// Where the token that starts at `start` ends. At the end of the source
/// the token is empty.
pub open spec fn lexeme_end(src: Seq<u8>, start: int) -> int {
    if start < 0 || start >= src.len() {
        start
    } else if is_alpha(src[start]) {
        word_end(src, start + 1)
    } else if is_digit(src[start]) {
        number_end(src, start + 1)
    } else if src[start] == '"' as u8 {
        if quote_at(src, start + 1) < src.len() {
            quote_at(src, start + 1) + 1
        } else {
            quote_at(src, start + 1)
        }
    } else if pairs_with_equal(src, start) {
        start + 2
    } else if single_kind(src[start]) is Some {
        start + 1
    } else {
        continuation_end(src, start + 1)
    }
}

/// The kind of the token that starts at `start`.
pub open spec fn lexeme_kind(src: Seq<u8>, start: int) -> TokenKind {
    if start < 0 || start >= src.len() {
        TokenKind::TokenEof
    } else if is_alpha(src[start]) {
        keyword_kind(src.subrange(start, word_end(src, start + 1)))
    } else if is_digit(src[start]) {
        if number_end(src, start + 1) < src.len() && is_alpha(src[number_end(src, start + 1)]) {
            TokenKind::TokenError(LexError::IdentifierStartsWithDigit)
        } else {
            TokenKind::TokenNumber
        }
    } else if src[start] == '"' as u8 {
        if quote_at(src, start + 1) < src.len() {
            TokenKind::TokenString
        } else {
            TokenKind::TokenError(LexError::UnterminatedString)
        }
    } else if pairs_with_equal(src, start) {
        paired_kind(src[start])
    } else if single_kind(src[start]) is Some {
        single_kind(src[start])->0
    } else {
        TokenKind::TokenError(LexError::UnexpectedCharacter)
    }
}


/// Whether the source can be scanned from its start: it is no longer than a
/// buffer can be, and the number of its last line fits the line counter.
pub open spec fn scannable(src: Seq<u8>) -> bool {
    src.len() <= usize::MAX && 1 + newlines(src, src.len() as int) <= i32::MAX
}

/// The token that the scanner yields when its cursor stands at `pos`.
pub open spec fn token_at(src: Seq<u8>, pos: int) -> Token {
    let start = blank_end(src, pos, false);
    let end = lexeme_end(src, start);
    Token {
        kind: lexeme_kind(src, start),
        start: start as usize,
        length: (end - start) as usize,
        line: (1 + newlines(src, end)) as i32,
    }
}

/// The cursor after the scanner has yielded the token at `pos`.
pub open spec fn scanner_after(src: Seq<u8>, pos: int) -> Scanner {
    let start = blank_end(src, pos, false);
    let end = lexeme_end(src, start);
    Scanner { start: start as usize, current: end as usize, line: (1 + newlines(src, end)) as i32 }
}

/// Where the cursor stands after the scanner has yielded `n` tokens from
/// the start of the source.
pub open spec fn cursor_after(src: Seq<u8>, n: nat) -> int
    decreases n,
{
    if n == 0 {
        0
    } else {
        scanner_after(src, cursor_after(src, (n - 1) as nat)).current as int
    }
}

/// The token that the scanner yields from the start of the source after it
/// has yielded `n` others. From the end of the input on, every token is the
/// end of the input.
#[verifier::opaque]
pub open spec fn nth_token(src: Seq<u8>, n: nat) -> Token {
    token_at(src, cursor_after(src, n))
}

/// The cursor never leaves the source and never moves back.
pub proof fn lemma_cursor_after_bounds(src: Seq<u8>, n: nat)
    requires
        src.len() <= usize::MAX,
    ensures
        0 <= cursor_after(src, n) <= cursor_after(src, n + 1) <= src.len(),
        nth_token(src, n).kind != TokenKind::TokenEof ==> cursor_after(src, n) < cursor_after(
            src,
            n + 1,
        ),
    decreases n,
{
    reveal(nth_token);
    if n > 0 {
        lemma_cursor_after_bounds(src, (n - 1) as nat);
    }
    lemma_scan_progress(src, cursor_after(src, n));
}

proof fn lemma_newlines_monotone(src: Seq<u8>, a: int, b: int)
    requires
        a <= b,
    ensures
        newlines(src, a) <= newlines(src, b),
    decreases b - a,
{
    if a < b {
        lemma_newlines_monotone(src, a, b - 1);
    }
}

proof fn lemma_newlines_bound(src: Seq<u8>, upto: int)
    requires
        0 <= upto,
    ensures
        newlines(src, upto) <= upto,
    decreases upto,
{
    if upto > 0 {
        lemma_newlines_bound(src, upto - 1);
    }
}

/// A source of fewer than `i32::MAX` bytes can be scanned: it has no more
/// line feeds than bytes.
pub proof fn lemma_short_source_scannable(src: Seq<u8>)
    requires
        src.len() < i32::MAX,
    ensures
        scannable(src),
{
    lemma_newlines_bound(src, src.len() as int);
}

/// Whitespace and comments end between where they start and the end of the
/// source.
pub proof fn lemma_blank_end_bounds(src: Seq<u8>, pos: int, in_comment: bool)
    requires
        0 <= pos <= src.len(),
    ensures
        pos <= blank_end(src, pos, in_comment) <= src.len(),
    decreases src.len() - pos,
{
    if pos < src.len() {
        lemma_blank_end_bounds(src, pos + 1, true);
        lemma_blank_end_bounds(src, pos + 1, false);
    }
}

proof fn lemma_digits_end_bounds(src: Seq<u8>, pos: int)
    requires
        0 <= pos <= src.len(),
    ensures
        pos <= digits_end(src, pos) <= src.len(),
    decreases src.len() - pos,
{
    if pos < src.len() && is_digit(src[pos]) {
        lemma_digits_end_bounds(src, pos + 1);
    }
}

proof fn lemma_word_end_bounds(src: Seq<u8>, pos: int)
    requires
        0 <= pos <= src.len(),
    ensures
        pos <= word_end(src, pos) <= src.len(),
    decreases src.len() - pos,
{
    if pos < src.len() && (is_alpha(src[pos]) || is_digit(src[pos])) {
        lemma_word_end_bounds(src, pos + 1);
    }
}

proof fn lemma_quote_at_bounds(src: Seq<u8>, pos: int)
    requires
        0 <= pos <= src.len(),
    ensures
        pos <= quote_at(src, pos) <= src.len(),
    decreases src.len() - pos,
{
    if pos < src.len() && src[pos] != '"' as u8 {
        lemma_quote_at_bounds(src, pos + 1);
    }
}

proof fn lemma_continuation_end_bounds(src: Seq<u8>, pos: int)
    requires
        0 <= pos <= src.len(),
    ensures
        pos <= continuation_end(src, pos) <= src.len(),
    decreases src.len() - pos,
{
    if pos < src.len() && is_continuation(src[pos]) {
        lemma_continuation_end_bounds(src, pos + 1);
    }
}

/// A token ends within the source, and behind its start unless the source
/// ends there.
pub proof fn lemma_lexeme_end_bounds(src: Seq<u8>, start: int)
    requires
        0 <= start <= src.len(),
    ensures
        start <= lexeme_end(src, start) <= src.len(),
        start < src.len() ==> start < lexeme_end(src, start),
{
    if start < src.len() {
        lemma_word_end_bounds(src, start + 1);
        lemma_digits_end_bounds(src, start + 1);
        let whole = digits_end(src, start + 1);
        if whole < src.len() {
            lemma_digits_end_bounds(src, whole + 1);
        }
        lemma_quote_at_bounds(src, start + 1);
        lemma_continuation_end_bounds(src, start + 1);
    }
}

/// A word is a keyword exactly if it is as long and, behind the bytes in
/// which the two are known to agree, holds the rest of the keyword.
proof fn lemma_keyword_split(word: Seq<u8>, keyword: Seq<u8>, skip: int, rest: Seq<u8>)
    requires
        0 <= skip <= word.len(),
        keyword.len() == skip + rest.len(),
        forall|k: int| 0 <= k < skip ==> word[k] == keyword[k],
        forall|k: int| 0 <= k < rest.len() ==> rest[k] == keyword[skip + k],
    ensures
        (word == keyword) <==> (word.len() == skip + rest.len() && word.subrange(
            skip,
            skip + rest.len(),
        ) == rest),
{
    if word.len() == skip + rest.len() {
        let tail = word.subrange(skip, skip + rest.len());
        if tail == rest {
            assert forall|k: int| 0 <= k < word.len() implies word[k] == keyword[k] by {
                if k >= skip {
                    assert(word[k] == tail[k - skip]);
                }
            }
            assert(word =~= keyword);
        }
        if word == keyword {
            assert(tail =~= rest);
        }
    }
}

/// Where whitespace and comments end, a token starts or the source ends.
pub proof fn lemma_blank_end_stops(src: Seq<u8>, pos: int, in_comment: bool)
    requires
        0 <= pos <= src.len(),
    ensures
        blank_end(src, pos, in_comment) < src.len() ==> !is_space(
            src[blank_end(src, pos, in_comment)],
        ) && src[blank_end(src, pos, in_comment)] != '#' as u8,
    decreases src.len() - pos,
{
    if pos < src.len() {
        lemma_blank_end_stops(src, pos + 1, true);
        lemma_blank_end_stops(src, pos + 1, false);
    }
}

/// Whether a comment is open at `at`: a `#` stands before it, with no line
/// feed from there up to `at`.
pub open spec fn in_comment(src: Seq<u8>, at: int) -> bool {
    exists|hash: int| comment_from(src, hash, at)
}

/// Whether a `#` stands at `hash`, before `at`, with no line feed from there
/// up to `at`.
pub open spec fn comment_from(src: Seq<u8>, hash: int, at: int) -> bool {
    &&& 0 <= hash < at
    &&& src[hash] == '#' as u8
    &&& forall|k: int| hash <= k < at ==> src[k] != '\n' as u8
}

/// Whether the source holds nothing but whitespace and comments: every byte
/// is whitespace, starts a comment or lies in one.
pub open spec fn only_blank(src: Seq<u8>) -> bool {
    forall|i: int|
        0 <= i < src.len() ==> is_space(#[trigger] src[i]) || src[i] == '#' as u8 || in_comment(
            src,
            i,
        )
}

proof fn lemma_only_blank_is_skipped(src: Seq<u8>, pos: int, open: bool)
    requires
        only_blank(src),
        0 <= pos <= src.len(),
        open == in_comment(src, pos),
    ensures
        blank_end(src, pos, open) == src.len(),
    decreases src.len() - pos,
{
    if pos < src.len() {
        let c = src[pos];
        let after = pos + 1;
        let next = if open {
            c != '\n' as u8
        } else {
            c == '#' as u8
        };
        if open {
            let hash = choose|hash: int| comment_from(src, hash, pos);
            if c != '\n' as u8 {
                assert(comment_from(src, hash, after));
            } else {
                assert forall|h: int| !comment_from(src, h, after) by {
                    if comment_from(src, h, after) {
                        assert(src[pos] != '\n' as u8);
                    }
                }
            }
        } else {
            assert(is_space(c) || c == '#' as u8);
            if c == '#' as u8 {
                assert(comment_from(src, pos, after));
            } else {
                assert forall|h: int| !comment_from(src, h, after) by {
                    if comment_from(src, h, after) {
                        if h < pos {
                            assert(comment_from(src, h, pos));
                        }
                    }
                }
            }
        }
        assert(next == in_comment(src, after));
        lemma_only_blank_is_skipped(src, pos + 1, next);
    }
}

/// A source that holds nothing but whitespace and comments yields the
/// end-of-input token, and nothing before it: the first token scanned is
/// `TokenEof`, it is empty, and the cursor then stands at the end.
pub proof fn law_blank_source_yields_only_eof(src: Seq<u8>)
    requires
        src.len() <= usize::MAX,
        only_blank(src),
    ensures
        token_at(src, 0).kind == TokenKind::TokenEof,
        token_at(src, 0).start == src.len(),
        token_at(src, 0).length == 0,
        scanner_after(src, 0).current == src.len(),
{
    assert(!in_comment(src, 0)) by {
        assert forall|h: int| !#[trigger] comment_from(src, h, 0) by {}
    }
    lemma_only_blank_is_skipped(src, 0, false);
}

/// Whether the bytes are a numeral: digits, and at most one point, which
/// stands between two of them.
pub open spec fn is_numeral(text: Seq<u8>) -> bool {
    &&& text.len() >= 1
    &&& is_digit(text[0])
    &&& is_digit(text[text.len() - 1])
    &&& forall|i: int| 0 <= i < text.len() ==> is_digit(#[trigger] text[i]) || text[i] == '.' as u8
    &&& forall|i: int, j: int|
        0 <= i < j < text.len() ==> !(#[trigger] text[i] == '.' as u8 && #[trigger] text[j]
            == '.' as u8)
}

/// Whether the token lies in the source: its span does, its line is one of
/// the source's lines, and if it is a number its text is a numeral.
pub open spec fn token_in(src: Seq<u8>, token: Token) -> bool {
    &&& token.start + token.length <= src.len()
    &&& 1 <= token.line <= 1 + newlines(src, src.len() as int)
    &&& token.kind == TokenKind::TokenNumber ==> is_numeral(
        src.subrange(token.start as int, token.start + token.length),
    )
}

proof fn lemma_digits_run(src: Seq<u8>, pos: int, k: int)
    requires
        0 <= pos <= k < digits_end(src, pos),
    ensures
        k < src.len(),
        is_digit(src[k]),
    decreases src.len() - pos,
{
    if pos < src.len() && is_digit(src[pos]) && pos < k {
        lemma_digits_run(src, pos + 1, k);
    }
}

/// Every token that the scanner yields lies in the source.
pub proof fn lemma_token_in(src: Seq<u8>, pos: int)
    requires
        0 <= pos <= src.len() <= usize::MAX,
        1 + newlines(src, src.len() as int) <= i32::MAX,
    ensures
        token_in(src, token_at(src, pos)),
{
    let token = token_at(src, pos);
    let start = blank_end(src, pos, false);
    let end = lexeme_end(src, start);
    lemma_scan_progress(src, pos);
    lemma_blank_end_bounds(src, pos, false);
    lemma_lexeme_end_bounds(src, start);
    lemma_newlines_monotone(src, end, src.len() as int);
    if token.kind == TokenKind::TokenNumber {
        assert(start < src.len());
        assert(is_digit(src[start])) by {
            if is_alpha(src[start]) {
                assert(keyword_kind(src.subrange(start, word_end(src, start + 1)))
                    != TokenKind::TokenNumber);
            }
        }
        let whole = digits_end(src, start + 1);
        lemma_digits_end_bounds(src, start + 1);
        let text = src.subrange(start, end);
        let fraction = whole + 1 < src.len() && src[whole] == '.' as u8 && is_digit(
            src[whole + 1],
        );
        assert(end == number_end(src, start + 1));
        if fraction {
            lemma_digits_end_bounds(src, whole + 2);
            assert(end == digits_end(src, whole + 1));
            assert(end == digits_end(src, whole + 2));
            assert forall|i: int| 0 <= i < text.len() implies (is_digit(#[trigger] text[i])
                || (text[i] == '.' as u8 && start + i == whole)) by {
                let k = start + i;
                if start < k && k < whole {
                    lemma_digits_run(src, start + 1, k);
                } else if k > whole {
                    lemma_digits_run(src, whole + 1, k);
                }
            }
            lemma_digits_run(src, whole + 1, end - 1);
        } else {
            assert(end == whole);
            assert forall|i: int| 0 <= i < text.len() implies is_digit(#[trigger] text[i]) by {
                let k = start + i;
                if start < k {
                    lemma_digits_run(src, start + 1, k);
                }
            }
        }
        assert(is_digit(text[text.len() - 1]));
        assert(is_numeral(text));
    }
}

/// Scanning moves the cursor forward and never past the end; the token's
/// span ends at the new cursor; and every token but the end of the input
/// takes at least one byte.
pub proof fn lemma_scan_progress(src: Seq<u8>, pos: int)
    requires
        0 <= pos <= src.len() <= usize::MAX,
    ensures
        pos <= scanner_after(src, pos).current <= src.len(),
        scanner_after(src, pos).start == token_at(src, pos).start,
        token_at(src, pos).start + token_at(src, pos).length == scanner_after(src, pos).current,
        token_at(src, pos).kind != TokenKind::TokenEof ==> pos < scanner_after(src, pos).current,
        token_at(src, pos).kind == TokenKind::TokenEof ==> token_at(src, pos).start == src.len(),
{
    lemma_blank_end_bounds(src, pos, false);
    lemma_lexeme_end_bounds(src, blank_end(src, pos, false));
    if blank_end(src, pos, false) < src.len() {
        lemma_kind_eof(src, blank_end(src, pos, false));
    }
}

proof fn lemma_kind_eof(src: Seq<u8>, start: int)
    requires
        0 <= start < src.len(),
    ensures
        lexeme_kind(src, start) != TokenKind::TokenEof,
{
    assert(keyword_kind(src.subrange(start, word_end(src, start + 1))) != TokenKind::TokenEof);
}

fn digit(c: u8) -> (yes: bool)
    ensures
        yes == is_digit(c),
{
    '0' as u8 <= c && c <= '9' as u8
}

fn alpha(c: u8) -> (yes: bool)
    ensures
        yes == is_alpha(c),
{
    ('a' as u8 <= c && c <= 'z' as u8) || ('A' as u8 <= c && c <= 'Z' as u8) || c == '_' as u8
}

impl Scanner {
    /// The cursor lies within the source, the line is that of the byte at
    /// the cursor, and the line of the last byte still fits the counter.
    /// A fresh scanner is well formed for every source of fewer than
    /// `i32::MAX` lines.
    pub open spec fn wf(&self, src: Seq<u8>) -> bool {
        &&& self.start <= self.current <= src.len() <= usize::MAX
        &&& self.line == 1 + newlines(src, self.current as int)
        &&& 1 + newlines(src, src.len() as int) <= i32::MAX
    }

    /// A scanner at the start of a source, on line one. It is well formed
    /// for every source that can be scanned.
    pub fn init_scanner() -> (scanner: Scanner)
        ensures
            scanner == (Scanner { start: 0, current: 0, line: 1 }),
            forall|src: Seq<u8>| scannable(src) ==> #[trigger] scanner.wf(src),
    {
        Scanner { start: 0, current: 0, line: 1 }
    }

    /// Consumes one byte and returns it. The line is left as it is.
    pub fn advance(&mut self, source: &str) -> (c: u8)
        requires
            old(self).current < source.spec_bytes().len(),
        ensures
            c == source.spec_bytes()[old(self).current as int],
            *final(self) == (Scanner { current: (old(self).current + 1) as usize, ..*old(self) }),
    {
        self.next_byte(source.as_bytes())
    }

    fn next_byte(&mut self, src: &[u8]) -> (c: u8)
        requires
            old(self).current < src@.len(),
        ensures
            c == src@[old(self).current as int],
            *final(self) == (Scanner { current: (old(self).current + 1) as usize, ..*old(self) }),
    {
        assert(src@.len() == src.len());
        self.current += 1;
        src[self.current - 1]
    }

    /// Consumes the byte at the cursor if it is the expected one.
    fn match_with(&mut self, src: &[u8], expected: u8, length: usize) -> (matched: bool)
        requires
            old(self).current <= src@.len(),
            length == src@.len(),
        ensures
            matched == (old(self).current < src@.len() && src@[old(self).current as int]
                == expected),
            *final(self) == (Scanner {
                current: if matched {
                    (old(self).current + 1) as usize
                } else {
                    old(self).current
                },
                ..*old(self)
            }),
    {
        if self.current == length {
            return false;
        }
        if self.peek(src) != Some(expected) {
            return false;
        }
        self.current += 1;
        true
    }

    /// Moves the cursor over whitespace and comments, counting the lines.
    fn skip_whitespaces(&mut self, src: &[u8])
        requires
            old(self).wf(src@),
        ensures
            final(self).wf(src@),
            final(self).start == old(self).start,
            final(self).current == blank_end(src@, old(self).current as int, false),
    {
        loop
            invariant
                self.wf(src@),
                self.start == old(self).start,
                blank_end(src@, self.current as int, false) == blank_end(
                    src@,
                    old(self).current as int,
                    false,
                ),
            decreases src@.len() - self.current,
        {
            if self.current == src.len() {
                return ;
            }
            let x = src[self.current];
            if x == ' ' as u8 || x == '\r' as u8 || x == '\t' as u8 {
                self.current += 1;
            } else if x == '\n' as u8 {
                proof {
                    lemma_newlines_monotone(src@, self.current + 1, src@.len() as int);
                }
                self.line += 1;
                self.current += 1;
            } else if x == '#' as u8 {
                let ghost hash = self.current as int;
                self.current += 1;
                while self.current < src.len() && src[self.current] != '\n' as u8
                    invariant
                        self.wf(src@),
                        self.start == old(self).start,
                        hash < self.current,
                        blank_end(src@, self.current as int, true) == blank_end(
                            src@,
                            old(self).current as int,
                            false,
                        ),
                    decreases src@.len() - self.current,
                {
                    self.current += 1;
                }
            } else {
                return ;
            }
        }
    }

    /// The byte at the cursor, if the source has not ended there.
    fn peek(&self, src: &[u8]) -> (c: Option<u8>)
        ensures
            c == if self.current < src@.len() {
                Some(src@[self.current as int])
            } else {
                None
            },
    {
        if self.current < src.len() {
            Some(src[self.current])
        } else {
            None
        }
    }

    /// The byte behind the one at the cursor, if the source holds one.
    fn peek_next(&self, src: &[u8]) -> (c: Option<u8>)
        ensures
            c == if self.current + 1 < src@.len() {
                Some(src@[self.current + 1])
            } else {
                None
            },
    {
        if self.current < src.len() && self.current + 1 < src.len() {
            Some(src[self.current + 1])
        } else {
            None
        }
    }

    /// The token of the given kind over the span from `start` to `current`.
    fn make_token(&self, kind: TokenKind) -> (token: Token)
        requires
            self.start <= self.current,
        ensures
            token == (Token {
                kind,
                start: self.start,
                length: (self.current - self.start) as usize,
                line: self.line,
            }),
    {
        Token { kind, start: self.start, length: self.current - self.start, line: self.line }
    }

    /// The error token over the span from `start` to `current`, with the
    /// reason in its kind.
    pub fn error_token(&self, message: LexError) -> (token: Token)
        requires
            self.start <= self.current,
        ensures
            token == (Token {
                kind: TokenKind::TokenError(message),
                start: self.start,
                length: (self.current - self.start) as usize,
                line: self.line,
            }),
    {
        Token {
            kind: TokenKind::TokenError(message),
            start: self.start,
            length: self.current - self.start,
            line: self.line,
        }
    }

    /// The second byte of the token at hand.
    fn char_at_start(&self, src: &[u8]) -> (c: Option<u8>)
        requires
            self.start <= src@.len(),
        ensures
            c == if self.start + 1 < src@.len() {
                Some(src@[self.start + 1])
            } else {
                None
            },
    {
        if self.start < src.len() && self.start + 1 < src.len() {
            Some(src[self.start + 1])
        } else {
            None
        }
    }

    /// The kind of the word at hand: its keyword kind where the keyword
    /// table holds the word, and `TokenIdentifier` where it does not. Words
    /// are told apart by their first letter, and those in `f` and `t` by
    /// their second.
    fn identifier_type(&self, src: &[u8]) -> (kind: TokenKind)
        requires
            self.start < self.current <= src@.len(),
        ensures
            kind == keyword_kind(src@.subrange(self.start as int, self.current as int)),
    {
        let ghost word = src@.subrange(self.start as int, self.current as int);
        assert(src@.len() == src.len());
        assert(word[0] == src@[self.start as int]);
        let y = src[self.start];
        if y == 'a' as u8 {
            let rest = ['n' as u8, 'd' as u8];
            let kind = self.check_keyword(1, 2, rest.as_slice(), TokenKind::TokenAnd, src);
            proof {
                lemma_keyword_split(word, seq!['a' as u8, 'n' as u8, 'd' as u8], 1, rest@);
            }
            kind
        } else if y == 'c' as u8 {
            let rest = ['l' as u8, 'a' as u8, 's' as u8, 's' as u8];
            let kind = self.check_keyword(1, 4, rest.as_slice(), TokenKind::TokenClass, src);
            proof {
                lemma_keyword_split(word, seq!['c' as u8, 'l' as u8, 'a' as u8, 's' as u8, 's' as u8], 1, rest@);
            }
            kind
        } else if y == 'e' as u8 {
            let rest = ['l' as u8, 's' as u8, 'e' as u8];
            let kind = self.check_keyword(1, 3, rest.as_slice(), TokenKind::TokenElse, src);
            proof {
                lemma_keyword_split(word, seq!['e' as u8, 'l' as u8, 's' as u8, 'e' as u8], 1, rest@);
            }
            kind
        } else if y == 'i' as u8 {
            let rest = ['f' as u8];
            let kind = self.check_keyword(1, 1, rest.as_slice(), TokenKind::TokenIf, src);
            proof {
                lemma_keyword_split(word, seq!['i' as u8, 'f' as u8], 1, rest@);
            }
            kind
        } else if y == 'n' as u8 {
            let rest = ['i' as u8, 'l' as u8];
            let kind = self.check_keyword(1, 2, rest.as_slice(), TokenKind::TokenNil, src);
            proof {
                lemma_keyword_split(word, seq!['n' as u8, 'i' as u8, 'l' as u8], 1, rest@);
            }
            kind
        } else if y == 'o' as u8 {
            let rest = ['r' as u8];
            let kind = self.check_keyword(1, 1, rest.as_slice(), TokenKind::TokenOr, src);
            proof {
                lemma_keyword_split(word, seq!['o' as u8, 'r' as u8], 1, rest@);
            }
            kind
        } else if y == 'p' as u8 {
            let rest = ['r' as u8, 'i' as u8, 'n' as u8, 't' as u8];
            let kind = self.check_keyword(1, 4, rest.as_slice(), TokenKind::TokenPrint, src);
            proof {
                lemma_keyword_split(word, seq!['p' as u8, 'r' as u8, 'i' as u8, 'n' as u8, 't' as u8], 1, rest@);
            }
            kind
        } else if y == 'r' as u8 {
            let rest = ['e' as u8, 't' as u8, 'u' as u8, 'r' as u8, 'n' as u8];
            let kind = self.check_keyword(1, 5, rest.as_slice(), TokenKind::TokenReturn, src);
            proof {
                lemma_keyword_split(word, seq!['r' as u8, 'e' as u8, 't' as u8, 'u' as u8, 'r' as u8, 'n' as u8], 1, rest@);
            }
            kind
        } else if y == 's' as u8 {
            let rest = ['u' as u8, 'p' as u8, 'e' as u8, 'r' as u8];
            let kind = self.check_keyword(1, 4, rest.as_slice(), TokenKind::TokenSuper, src);
            proof {
                lemma_keyword_split(word, seq!['s' as u8, 'u' as u8, 'p' as u8, 'e' as u8, 'r' as u8], 1, rest@);
            }
            kind
        } else if y == 'w' as u8 {
            let rest = ['h' as u8, 'i' as u8, 'l' as u8, 'e' as u8];
            let kind = self.check_keyword(1, 4, rest.as_slice(), TokenKind::TokenWhile, src);
            proof {
                lemma_keyword_split(word, seq!['w' as u8, 'h' as u8, 'i' as u8, 'l' as u8, 'e' as u8], 1, rest@);
            }
            kind
        } else if y == 'f' as u8 {
            if self.current - self.start > 1 {
                assert(word[1] == src@[self.start + 1]);
                match self.char_at_start(src) {
                    Some(x) => {
                        if x == 'o' as u8 {
                            let rest = ['r' as u8];
                            let kind = self.check_keyword(2, 1, rest.as_slice(), TokenKind::TokenFor, src);
                            proof {
                                lemma_keyword_split(word, seq!['f' as u8, 'o' as u8, 'r' as u8], 2, rest@);
                            }
                            kind
                        } else if x == 'u' as u8 {
                            let rest = ['n' as u8];
                            let kind = self.check_keyword(2, 1, rest.as_slice(), TokenKind::TokenFun, src);
                            proof {
                                lemma_keyword_split(word, seq!['f' as u8, 'u' as u8, 'n' as u8], 2, rest@);
                            }
                            kind
                        } else if x == 'a' as u8 {
                            let rest = ['l' as u8, 's' as u8, 'e' as u8];
                            let kind = self.check_keyword(2, 3, rest.as_slice(), TokenKind::TokenFalse, src);
                            proof {
                                lemma_keyword_split(word, seq!['f' as u8, 'a' as u8, 'l' as u8, 's' as u8, 'e' as u8], 2, rest@);
                            }
                            kind
                        } else {
                            TokenKind::TokenIdentifier
                        }
                    },
                    None => TokenKind::TokenIdentifier,
                }
            } else {
                TokenKind::TokenIdentifier
            }
        } else if y == 't' as u8 {
            if self.current - self.start > 1 {
                assert(word[1] == src@[self.start + 1]);
                match self.char_at_start(src) {
                    Some(x) => {
                        if x == 'h' as u8 {
                            let rest = ['i' as u8, 's' as u8];
                            let kind = self.check_keyword(2, 2, rest.as_slice(), TokenKind::TokenThis, src);
                            proof {
                                lemma_keyword_split(word, seq!['t' as u8, 'h' as u8, 'i' as u8, 's' as u8], 2, rest@);
                            }
                            kind
                        } else if x == 'r' as u8 {
                            let rest = ['u' as u8, 'e' as u8];
                            let kind = self.check_keyword(2, 2, rest.as_slice(), TokenKind::TokenTrue, src);
                            proof {
                                lemma_keyword_split(word, seq!['t' as u8, 'r' as u8, 'u' as u8, 'e' as u8], 2, rest@);
                            }
                            kind
                        } else {
                            TokenKind::TokenIdentifier
                        }
                    },
                    None => TokenKind::TokenIdentifier,
                }
            } else {
                TokenKind::TokenIdentifier
            }
        } else {
            TokenKind::TokenIdentifier
        }
    }

    /// `token_kind` if the word at hand is as long as `start` and `length`
    /// together and holds `rest` from `start` on; `TokenIdentifier` if not.
    fn check_keyword(
        &self,
        start: usize,
        length: usize,
        rest: &[u8],
        token_kind: TokenKind,
        src: &[u8],
    ) -> (kind: TokenKind)
        requires
            self.start <= self.current <= src@.len(),
            rest@.len() == length,
            start + length <= 8,
        ensures
            kind == if self.current - self.start == start + length && src@.subrange(
                self.start as int,
                self.current as int,
            ).subrange(start as int, start + length) == rest@ {
                token_kind
            } else {
                TokenKind::TokenIdentifier
            },
    {
        assert(src@.len() == src.len());
        if self.current - self.start != start + length {
            return TokenKind::TokenIdentifier;
        }
        let from = self.start + start;
        let ghost tail = src@.subrange(self.start as int, self.current as int).subrange(
            start as int,
            start + length,
        );
        let mut i: usize = 0;
        while i < length
            invariant
                i <= length,
                rest@.len() == length,
                src@.len() == src.len(),
                from == self.start + start,
                self.current - self.start == start + length,
                self.current <= src@.len(),
                tail == src@.subrange(self.start as int, self.current as int).subrange(
                    start as int,
                    start + length,
                ),
                forall|k: int| 0 <= k < i ==> tail[k] == rest@[k],
            decreases length - i,
        {
            assert(tail[i as int] == src@[from + i]);
            if src[from + i] != rest[i] {
                return TokenKind::TokenIdentifier;
            }
            i += 1;
        }
        assert(tail =~= rest@);
        token_kind
    }

    fn digits(&mut self, src: &[u8])
        requires
            old(self).wf(src@),
        ensures
            final(self).wf(src@),
            final(self).start == old(self).start,
            final(self).current == digits_end(src@, old(self).current as int),
    {
        assert(src@.len() == src.len());
        while self.current < src.len() && digit(src[self.current])
            invariant
                self.wf(src@),
                src@.len() == src.len(),
                self.start == old(self).start,
                digits_end(src@, self.current as int) == digits_end(
                    src@,
                    old(self).current as int,
                ),
            decreases src@.len() - self.current,
        {
            self.current += 1;
        }
    }

    /// Scans the rest of a number whose first digit has been consumed.
    fn number(&mut self, src: &[u8]) -> (token: Token)
        requires
            old(self).wf(src@),
        ensures
            final(self).wf(src@),
            final(self).start == old(self).start,
            final(self).current == number_end(src@, old(self).current as int),
            token == (Token {
                kind: if final(self).current < src@.len() && is_alpha(
                    src@[final(self).current as int],
                ) {
                    TokenKind::TokenError(LexError::IdentifierStartsWithDigit)
                } else {
                    TokenKind::TokenNumber
                },
                start: final(self).start,
                length: (final(self).current - final(self).start) as usize,
                line: final(self).line,
            }),
    {
        assert(src@.len() == src.len());
        self.digits(src);
        let fraction = match (self.peek(src), self.peek_next(src)) {
            (Some(point), Some(next)) => point == '.' as u8 && digit(next),
            _ => false,
        };
        if fraction {
            self.current += 1;
            self.digits(src);
        }
        match self.peek(src) {
            Some(c) => {
                if alpha(c) {
                    return self.error_token(LexError::IdentifierStartsWithDigit);
                }
            },
            None => {},
        }
        self.make_token(TokenKind::TokenNumber)
    }

    /// Scans the rest of a word whose first byte has been consumed.
    fn identifier(&mut self, src: &[u8]) -> (token: Token)
        requires
            old(self).wf(src@),
            old(self).start < old(self).current,
        ensures
            final(self).wf(src@),
            final(self).start == old(self).start,
            final(self).current == word_end(src@, old(self).current as int),
            token == (Token {
                kind: keyword_kind(
                    src@.subrange(final(self).start as int, final(self).current as int),
                ),
                start: final(self).start,
                length: (final(self).current - final(self).start) as usize,
                line: final(self).line,
            }),
    {
        assert(src@.len() == src.len());
        while self.current < src.len() && (alpha(src[self.current]) || digit(src[self.current]))
            invariant
                self.wf(src@),
                src@.len() == src.len(),
                self.start == old(self).start,
                self.start < self.current,
                word_end(src@, self.current as int) == word_end(src@, old(self).current as int),
            decreases src@.len() - self.current,
        {
            self.current += 1;
        }
        let token_for_id = self.identifier_type(src);
        self.make_token(token_for_id)
    }

    /// Scans the rest of a string whose opening quote has been consumed.
    fn string(&mut self, src: &[u8]) -> (token: Token)
        requires
            old(self).wf(src@),
        ensures
            final(self).wf(src@),
            final(self).start == old(self).start,
            final(self).current == if quote_at(src@, old(self).current as int) < src@.len() {
                quote_at(src@, old(self).current as int) + 1
            } else {
                quote_at(src@, old(self).current as int)
            },
            token == (Token {
                kind: if quote_at(src@, old(self).current as int) < src@.len() {
                    TokenKind::TokenString
                } else {
                    TokenKind::TokenError(LexError::UnterminatedString)
                },
                start: final(self).start,
                length: (final(self).current - final(self).start) as usize,
                line: final(self).line,
            }),
    {
        assert(src@.len() == src.len());
        while self.current < src.len() && src[self.current] != '"' as u8
            invariant
                self.wf(src@),
                src@.len() == src.len(),
                self.start == old(self).start,
                quote_at(src@, self.current as int) == quote_at(src@, old(self).current as int),
            decreases src@.len() - self.current,
        {
            if src[self.current] == '\n' as u8 {
                proof {
                    lemma_newlines_monotone(src@, self.current + 1, src@.len() as int);
                }
                self.line += 1;
            }
            self.current += 1;
        }
        if self.current == src.len() {
            return self.error_token(LexError::UnterminatedString);
        }
        self.current += 1;
        self.make_token(TokenKind::TokenString)
    }

    /// Scans the rest of a character that starts no token.
    fn unexpected(&mut self, src: &[u8]) -> (token: Token)
        requires
            old(self).wf(src@),
        ensures
            final(self).wf(src@),
            final(self).start == old(self).start,
            final(self).current == continuation_end(src@, old(self).current as int),
            token == (Token {
                kind: TokenKind::TokenError(LexError::UnexpectedCharacter),
                start: final(self).start,
                length: (final(self).current - final(self).start) as usize,
                line: final(self).line,
            }),
    {
        assert(src@.len() == src.len());
        while self.current < src.len() && 0x80 <= src[self.current] && src[self.current] <= 0xBF
            invariant
                self.wf(src@),
                src@.len() == src.len(),
                self.start == old(self).start,
                continuation_end(src@, self.current as int) == continuation_end(
                    src@,
                    old(self).current as int,
                ),
            decreases src@.len() - self.current,
        {
            self.current += 1;
        }
        self.error_token(LexError::UnexpectedCharacter)
    }

    /// Yields the next token: skips whitespace and comments, then reads one
    /// token from where they end. At the end of the source the token is
    /// `TokenEof`, empty, and the cursor stays where it is. The cursor and
    /// the line never go back, and every token but `TokenEof` moves the
    /// cursor on.
    pub fn scan_token(&mut self, source: &str) -> (token: Token)
        requires
            old(self).wf(source.spec_bytes()),
        ensures
            final(self).wf(source.spec_bytes()),
            token == token_at(source.spec_bytes(), old(self).current as int),
            *final(self) == scanner_after(source.spec_bytes(), old(self).current as int),
            old(self).current <= final(self).current,
            old(self).line <= final(self).line,
            token.kind != TokenKind::TokenEof ==> old(self).current < final(self).current,
    {
        let src = source.as_bytes();
        let length = src.len();
        proof {
            lemma_scan_progress(src@, self.current as int);
            lemma_newlines_monotone(
                src@,
                self.current as int,
                scanner_after(src@, self.current as int).current as int,
            );
        }
        self.skip_whitespaces(src);
        self.start = self.current;
        proof {
            lemma_blank_end_stops(src@, old(self).current as int, false);
            lemma_lexeme_end_bounds(src@, self.start as int);
        }
        if self.current == length {
            return self.make_token(TokenKind::TokenEof);
        }
        let c = self.next_byte(src);
        assert(self.wf(src@));
        if alpha(c) {
            return self.identifier(src);
        }
        if digit(c) {
            return self.number(src);
        }
        if c == '(' as u8 {
            self.make_token(TokenKind::TokenLeftParen)
        } else if c == ')' as u8 {
            self.make_token(TokenKind::TokenRightParen)
        } else if c == '{' as u8 {
            self.make_token(TokenKind::TokenLeftBrace)
        } else if c == '}' as u8 {
            self.make_token(TokenKind::TokenRightBrace)
        } else if c == ';' as u8 {
            self.make_token(TokenKind::TokenSemiColon)
        } else if c == ',' as u8 {
            self.make_token(TokenKind::TokenComma)
        } else if c == '.' as u8 {
            self.make_token(TokenKind::TokenPeriod)
        } else if c == '-' as u8 {
            self.make_token(TokenKind::TokenMinus)
        } else if c == '+' as u8 {
            self.make_token(TokenKind::TokenPlus)
        } else if c == '/' as u8 {
            self.make_token(TokenKind::TokenSlash)
        } else if c == '*' as u8 {
            self.make_token(TokenKind::TokenStar)
        } else if c == '!' as u8 {
            if self.match_with(src, '=' as u8, length) {
                self.make_token(TokenKind::TokenBangEqual)
            } else {
                self.make_token(TokenKind::TokenBang)
            }
        } else if c == '=' as u8 {
            if self.match_with(src, '=' as u8, length) {
                self.make_token(TokenKind::TokenEqualEqual)
            } else {
                self.make_token(TokenKind::TokenEqual)
            }
        } else if c == '<' as u8 {
            if self.match_with(src, '=' as u8, length) {
                self.make_token(TokenKind::TokenLessEqual)
            } else {
                self.make_token(TokenKind::TokenLess)
            }
        } else if c == '>' as u8 {
            if self.match_with(src, '=' as u8, length) {
                self.make_token(TokenKind::TokenGreaterEqual)
            } else {
                self.make_token(TokenKind::TokenGreater)
            }
        } else if c == '"' as u8 {
            self.string(src)
        } else {
            self.unexpected(src)
        }
    }
}

} // verus!
