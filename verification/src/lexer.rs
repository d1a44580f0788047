//! Lexical analyzer for ExprLang.
//!
//! Converts source text into tokens: numbers, strings, identifiers,
//! operators, keywords; whitespace, `#` line comments and nested `/* */`
//! comments are skipped.

use vstd::prelude::*;
use crate::text::{utf8_len, utf8_width_of, law_utf8_len, lemma_utf8_len_prefix, is_space, is_letter, is_letter_or_digit, is_ascii_digit, space, letter, letter_or_digit, ascii_digit, chars_of, string_of, push_char, spells};
use crate::error::Position;

verus! {

/// All token types recognized by the lexer.
///
/// A number keeps the text of its literal (digits with at most one decimal
/// point, then an optional exponent such as `e5` or `E-3`); turning it into
/// a value is left to whoever evaluates it.
#[derive(Debug, Clone, PartialEq)]
pub enum Token {
    Number(String),
    String(String),
    Ident(String),
    Plus,
    Minus,
    Star,
    Slash,
    LParen,
    RParen,
    LBracket,
    RBracket,
    Assign,
    Comma,
    Semicolon,
    Less,
    LessEqual,
    Greater,
    GreaterEqual,
    Equal,
    NotEqual,
    And,
    Or,
    Not,
    If,
    Then,
    Else,
    Elif,
    While,
    Do,
    For,
    In,
    Step,
    Break,
    Continue,
    Fn,
    Colon,
    DotDot,
    Eof,
}

/// The mathematical model of a [`Token`]: the same variants, with text as `Seq<char>`.
pub enum TokenView {
    Number(Seq<char>),
    Str(Seq<char>),
    Ident(Seq<char>),
    Plus,
    Minus,
    Star,
    Slash,
    LParen,
    RParen,
    LBracket,
    RBracket,
    Assign,
    Comma,
    Semicolon,
    Less,
    LessEqual,
    Greater,
    GreaterEqual,
    Equal,
    NotEqual,
    And,
    Or,
    Not,
    If,
    Then,
    Else,
    Elif,
    While,
    Do,
    For,
    In,
    Step,
    Break,
    Continue,
    Fn,
    Colon,
    DotDot,
    Eof,
}

impl View for Token {
    type V = TokenView;

    open spec fn view(&self) -> TokenView {
        match self {
            Token::Number(s) => TokenView::Number(s@),
            Token::String(s) => TokenView::Str(s@),
            Token::Ident(s) => TokenView::Ident(s@),
            Token::Plus => TokenView::Plus,
            Token::Minus => TokenView::Minus,
            Token::Star => TokenView::Star,
            Token::Slash => TokenView::Slash,
            Token::LParen => TokenView::LParen,
            Token::RParen => TokenView::RParen,
            Token::LBracket => TokenView::LBracket,
            Token::RBracket => TokenView::RBracket,
            Token::Assign => TokenView::Assign,
            Token::Comma => TokenView::Comma,
            Token::Semicolon => TokenView::Semicolon,
            Token::Less => TokenView::Less,
            Token::LessEqual => TokenView::LessEqual,
            Token::Greater => TokenView::Greater,
            Token::GreaterEqual => TokenView::GreaterEqual,
            Token::Equal => TokenView::Equal,
            Token::NotEqual => TokenView::NotEqual,
            Token::And => TokenView::And,
            Token::Or => TokenView::Or,
            Token::Not => TokenView::Not,
            Token::If => TokenView::If,
            Token::Then => TokenView::Then,
            Token::Else => TokenView::Else,
            Token::Elif => TokenView::Elif,
            Token::While => TokenView::While,
            Token::Do => TokenView::Do,
            Token::For => TokenView::For,
            Token::In => TokenView::In,
            Token::Step => TokenView::Step,
            Token::Break => TokenView::Break,
            Token::Continue => TokenView::Continue,
            Token::Fn => TokenView::Fn,
            Token::Colon => TokenView::Colon,
            Token::DotDot => TokenView::DotDot,
            Token::Eof => TokenView::Eof,
        }
    }
}

// ---------------------------------------------------------------------------
// The lexical grammar, stated over a character sequence and a position.
// ---------------------------------------------------------------------------

/// The character at `i`, if there is one.
pub open spec fn char_at(s: Seq<char>, i: int) -> Option<char> {
    if 0 <= i < s.len() {
        Some(s[i])
    } else {
        None
    }
}

/// A character that may continue an identifier.
pub open spec fn is_ident_char(c: char) -> bool {
    is_letter_or_digit(c) || c == '_'
}

/// The first position at or after `p` that does not hold whitespace.
pub open spec fn ws_end(s: Seq<char>, p: int) -> int
    decreases s.len() - p,
{
    if p < s.len() && is_space(s[p as int]) {
        ws_end(s, p + 1)
    } else {
        p
    }
}

/// The position of the first newline at or after `p` (or the end of input).
pub open spec fn line_end(s: Seq<char>, p: int) -> int
    decreases s.len() - p,
{
    if p < s.len() && s[p as int] != '\n' {
        line_end(s, p + 1)
    } else {
        p
    }
}

/// Where a block comment ends, scanning from `p` at nesting `depth`:
/// just past the `*/` that closes the outermost comment, or the end of input.
pub open spec fn comment_end(s: Seq<char>, p: int, depth: nat) -> int
    decreases s.len() - p,
{
    if p >= s.len() {
        p
    } else if s[p as int] == '/' && char_at(s, p + 1) == Some('*') {
        comment_end(s, p + 2, depth + 1)
    } else if s[p as int] == '*' && char_at(s, p + 1) == Some('/') {
        if depth <= 1 {
            p + 2
        } else {
            comment_end(s, p + 2, (depth - 1) as nat)
        }
    } else {
        comment_end(s, p + 1, depth)
    }
}

/// The position of the next token: whitespace, `#` comments (to the end of
/// the line) and nested `/* */` comments are skipped.
pub open spec fn skip_trivia(s: Seq<char>, p: int) -> int
    decreases s.len() - p,
{
    let q = ws_end(s, p);
    if q < s.len() && s[q as int] == '#' {
        proof {
            lemma_ws_end(s, p);
            lemma_line_end(s, q + 1);
        }
        skip_trivia(s, line_end(s, q))
    } else if q < s.len() && s[q as int] == '/' && char_at(s, q + 1) == Some('*') {
        proof {
            lemma_ws_end(s, p);
            lemma_comment_end(s, q + 2, 1);
        }
        skip_trivia(s, comment_end(s, q + 2, 1))
    } else {
        q
    }
}

/// The end of the mantissa of a numeric literal: digits, and at most one `.`
/// that is directly followed by a digit.
pub open spec fn mantissa_end(s: Seq<char>, p: int, has_dot: bool) -> int
    decreases s.len() - p,
{
    if p < s.len() && is_ascii_digit(s[p as int]) {
        mantissa_end(s, p + 1, has_dot)
    } else if p < s.len() && s[p as int] == '.' && !has_dot && p + 1 < s.len()
        && is_ascii_digit(s[p + 1]) {
        mantissa_end(s, p + 1, true)
    } else {
        p
    }
}

/// The end of the run of digits starting at `p`.
pub open spec fn digits_end(s: Seq<char>, p: int) -> int
    decreases s.len() - p,
{
    if 0 <= p < s.len() && is_ascii_digit(s[p]) {
        digits_end(s, p + 1)
    } else {
        p
    }
}

/// The end of an exponent starting at `p`: `e` or `E`, an optional sign and
/// at least one digit. Without such an exponent it is `p` itself.
pub open spec fn exponent_end(s: Seq<char>, p: int) -> int {
    if 0 <= p < s.len() && (s[p] == 'e' || s[p] == 'E') {
        let d = if p + 1 < s.len() && (s[p + 1] == '+' || s[p + 1] == '-') {
            p + 2
        } else {
            p + 1
        };
        if d < s.len() && is_ascii_digit(s[d]) {
            digits_end(s, d)
        } else {
            p
        }
    } else {
        p
    }
}

/// The end of a numeric literal starting at `p`: a mantissa (`2`, `3.14`,
/// `.5`) and an optional exponent (`2e5`, `1.5E-3`).
pub open spec fn number_end(s: Seq<char>, p: int) -> int {
    exponent_end(s, mantissa_end(s, p, false))
}

/// The end of the run of identifier characters starting at `p`.
pub open spec fn ident_end(s: Seq<char>, p: int) -> int
    decreases s.len() - p,
{
    if p < s.len() && is_ident_char(s[p as int]) {
        ident_end(s, p + 1)
    } else {
        p
    }
}

/// The character that an escape sequence `\c` stands for.
pub open spec fn escaped(c: char) -> char {
    if c == 'n' {
        '\n'
    } else if c == 't' {
        '\t'
    } else if c == 'r' {
        '\r'
    } else {
        c
    }
}

/// The contents of a string literal whose body starts at `p`, and the
/// position just after it (after the closing quote, or the end of input
/// when the literal is not closed).
pub open spec fn string_body(s: Seq<char>, p: int) -> (Seq<char>, int)
    decreases s.len() - p,
{
    if p >= s.len() {
        (Seq::empty(), p)
    } else if s[p as int] == '"' {
        (Seq::empty(), p + 1)
    } else if s[p as int] == '\\' && p + 1 < s.len() {
        let rest = string_body(s, p + 2);
        (seq![escaped(s[p + 1])] + rest.0, rest.1)
    } else {
        let rest = string_body(s, p + 1);
        (seq![s[p as int]] + rest.0, rest.1)
    }
}

/// The keyword spelled by `w`, if it is one.
pub open spec fn keyword(w: Seq<char>) -> Option<TokenView> {
    if w == seq!['i', 'f'] {
        Some(TokenView::If)
    } else if w == seq!['t', 'h', 'e', 'n'] {
        Some(TokenView::Then)
    } else if w == seq!['e', 'l', 's', 'e'] {
        Some(TokenView::Else)
    } else if w == seq!['e', 'l', 'i', 'f'] {
        Some(TokenView::Elif)
    } else if w == seq!['w', 'h', 'i', 'l', 'e'] {
        Some(TokenView::While)
    } else if w == seq!['d', 'o'] {
        Some(TokenView::Do)
    } else if w == seq!['f', 'o', 'r'] {
        Some(TokenView::For)
    } else if w == seq!['i', 'n'] {
        Some(TokenView::In)
    } else if w == seq!['s', 't', 'e', 'p'] {
        Some(TokenView::Step)
    } else if w == seq!['b', 'r', 'e', 'a', 'k'] {
        Some(TokenView::Break)
    } else if w == seq!['c', 'o', 'n', 't', 'i', 'n', 'u', 'e'] {
        Some(TokenView::Continue)
    } else if w == seq!['f', 'n'] {
        Some(TokenView::Fn)
    } else {
        None
    }
}

/// The token made of one character, if `c` is such a token.
pub open spec fn single_char_token(c: char) -> Option<TokenView> {
    if c == '+' {
        Some(TokenView::Plus)
    } else if c == '-' {
        Some(TokenView::Minus)
    } else if c == '*' {
        Some(TokenView::Star)
    } else if c == '/' {
        Some(TokenView::Slash)
    } else if c == '(' {
        Some(TokenView::LParen)
    } else if c == ')' {
        Some(TokenView::RParen)
    } else if c == '[' {
        Some(TokenView::LBracket)
    } else if c == ']' {
        Some(TokenView::RBracket)
    } else if c == '=' {
        Some(TokenView::Assign)
    } else if c == ',' {
        Some(TokenView::Comma)
    } else if c == ';' {
        Some(TokenView::Semicolon)
    } else if c == '<' {
        Some(TokenView::Less)
    } else if c == '>' {
        Some(TokenView::Greater)
    } else if c == '!' {
        Some(TokenView::Not)
    } else if c == ':' {
        Some(TokenView::Colon)
    } else {
        None
    }
}

/// The token made of the two characters `c` `d`, if they form one.
pub open spec fn two_char_token(c: char, d: char) -> Option<TokenView> {
    if c == '<' && d == '=' {
        Some(TokenView::LessEqual)
    } else if c == '>' && d == '=' {
        Some(TokenView::GreaterEqual)
    } else if c == '=' && d == '=' {
        Some(TokenView::Equal)
    } else if c == '!' && d == '=' {
        Some(TokenView::NotEqual)
    } else if c == '&' && d == '&' {
        Some(TokenView::And)
    } else if c == '|' && d == '|' {
        Some(TokenView::Or)
    } else if c == '.' && d == '.' {
        Some(TokenView::DotDot)
    } else {
        None
    }
}

/// The message for a character that starts no token.
pub open spec fn unexpected_char_message(c: char) -> Seq<char> {
    "Unexpected character: "@ + seq![c]
}

/// The token that starts exactly at `q`, and the position after it.
#[verifier::opaque]
pub open spec fn token_at(s: Seq<char>, q: int) -> Result<(TokenView, int), Seq<char>> {
    if q >= s.len() {
        Ok((TokenView::Eof, q))
    } else {
        let c = s[q as int];
        if q + 1 < s.len() && two_char_token(c, s[q + 1]) is Some {
            Ok((two_char_token(c, s[q + 1])->0, q + 2))
        } else if single_char_token(c) is Some {
            Ok((single_char_token(c)->0, q + 1))
        } else if c == '"' {
            let (body, e) = string_body(s, q + 1);
            Ok((TokenView::Str(body), e))
        } else if is_ascii_digit(c) || (c == '.' && q + 1 < s.len() && is_ascii_digit(s[q + 1])) {
            let e = number_end(s, q);
            Ok((TokenView::Number(s.subrange(q as int, e as int)), e))
        } else if is_letter(c) || c == '_' {
            let e = ident_end(s, q + 1);
            let w = s.subrange(q as int, e as int);
            match keyword(w) {
                Some(k) => Ok((k, e)),
                None => Ok((TokenView::Ident(w), e)),
            }
        } else {
            Err(unexpected_char_message(c))
        }
    }
}

/// The next token of `s` from position `p`: the token after any whitespace
/// and comments, with the position just after it.
pub open spec fn next_token_spec(s: Seq<char>, p: int) -> Result<(TokenView, int), Seq<char>> {
    token_at(s, skip_trivia(s, p))
}

// ---------------------------------------------------------------------------
// Lemmas about the lexical grammar.
// ---------------------------------------------------------------------------

pub proof fn lemma_ws_end(s: Seq<char>, p: int)
    ensures
        p <= s.len() ==> p <= ws_end(s, p) <= s.len(),
        p > s.len() ==> ws_end(s, p) == p,
    decreases s.len() - p,
{
    if p < s.len() && is_space(s[p as int]) {
        lemma_ws_end(s, p + 1);
    }
}

pub proof fn lemma_line_end(s: Seq<char>, p: int)
    ensures
        p <= s.len() ==> p <= line_end(s, p) <= s.len(),
        p > s.len() ==> line_end(s, p) == p,
    decreases s.len() - p,
{
    if p < s.len() && s[p as int] != '\n' {
        lemma_line_end(s, p + 1);
    }
}

pub proof fn lemma_comment_end(s: Seq<char>, p: int, depth: nat)
    ensures
        p <= s.len() ==> p <= comment_end(s, p, depth) <= s.len(),
        p > s.len() ==> comment_end(s, p, depth) == p,
    decreases s.len() - p,
{
    if p >= s.len() {
    } else if s[p as int] == '/' && char_at(s, p + 1) == Some('*') {
        lemma_comment_end(s, p + 2, depth + 1);
    } else if s[p as int] == '*' && char_at(s, p + 1) == Some('/') {
        if depth > 1 {
            lemma_comment_end(s, p + 2, (depth - 1) as nat);
        }
    } else {
        lemma_comment_end(s, p + 1, depth);
    }
}

pub proof fn lemma_skip_trivia(s: Seq<char>, p: int)
    requires
        p <= s.len(),
    ensures
        p <= skip_trivia(s, p) <= s.len(),
    decreases s.len() - p,
{
    let q = ws_end(s, p);
    lemma_ws_end(s, p);
    if q < s.len() && s[q as int] == '#' {
        lemma_line_end(s, q + 1);
        lemma_skip_trivia(s, line_end(s, q));
    } else if q < s.len() && s[q as int] == '/' && char_at(s, q + 1) == Some('*') {
        lemma_comment_end(s, q + 2, 1);
        lemma_skip_trivia(s, comment_end(s, q + 2, 1));
    }
}

pub proof fn lemma_mantissa_end(s: Seq<char>, p: int, has_dot: bool)
    requires
        p <= s.len(),
    ensures
        p <= mantissa_end(s, p, has_dot) <= s.len(),
    decreases s.len() - p,
{
    if p < s.len() && is_ascii_digit(s[p as int]) {
        lemma_mantissa_end(s, p + 1, has_dot);
    } else if p < s.len() && s[p as int] == '.' && !has_dot && p + 1 < s.len()
        && is_ascii_digit(s[p + 1]) {
        lemma_mantissa_end(s, p + 1, true);
    }
}

pub proof fn lemma_digits_end(s: Seq<char>, p: int)
    requires
        0 <= p <= s.len(),
    ensures
        p <= digits_end(s, p) <= s.len(),
    decreases s.len() - p,
{
    if p < s.len() && is_ascii_digit(s[p]) {
        lemma_digits_end(s, p + 1);
    }
}

pub proof fn lemma_number_end(s: Seq<char>, p: int)
    requires
        p <= s.len(),
    ensures
        mantissa_end(s, p, false) <= number_end(s, p) <= s.len(),
        p <= mantissa_end(s, p, false),
{
    let m = mantissa_end(s, p, false);
    lemma_mantissa_end(s, p, false);
    if 0 <= m < s.len() && (s[m] == 'e' || s[m] == 'E') {
        if m + 1 < s.len() && (s[m + 1] == '+' || s[m + 1] == '-') {
            lemma_digits_end(s, m + 2);
        } else {
            lemma_digits_end(s, m + 1);
        }
    }
}

pub proof fn lemma_ident_end(s: Seq<char>, p: int)
    requires
        p <= s.len(),
    ensures
        p <= ident_end(s, p) <= s.len(),
    decreases s.len() - p,
{
    if p < s.len() && is_ident_char(s[p as int]) {
        lemma_ident_end(s, p + 1);
    }
}

pub proof fn lemma_string_body(s: Seq<char>, p: int)
    requires
        p <= s.len(),
    ensures
        p <= string_body(s, p).1 <= s.len(),
    decreases s.len() - p,
{
    if p >= s.len() {
    } else if s[p as int] == '"' {
    } else if s[p as int] == '\\' && p + 1 < s.len() {
        lemma_string_body(s, p + 2);
    } else {
        lemma_string_body(s, p + 1);
    }
}

/// Lexing makes progress: from any position, the next token either is the
/// end of input (reached only at the end of the text) or lies strictly
/// further on, so repeated calls never stall.
pub proof fn lemma_next_token_progress(s: Seq<char>, p: int)
    requires
        p <= s.len(),
    ensures
        next_token_spec(s, p) matches Ok((t, q)) ==> {
            &&& p <= q <= s.len()
            &&& (t == TokenView::Eof ==> q == s.len())
            &&& (t != TokenView::Eof ==> p < q)
        },
{
    reveal(token_at);
    reveal(next_token_spec);
    let q = skip_trivia(s, p);
    lemma_skip_trivia(s, p);
    if q < s.len() {
        let c = s[q as int];
        if q + 1 < s.len() && two_char_token(c, s[q + 1]) is Some {
        } else if single_char_token(c) is Some {
        } else if c == '"' {
            lemma_string_body(s, q + 1);
        } else if is_ascii_digit(c) || (c == '.' && q + 1 < s.len() && is_ascii_digit(s[q + 1])) {
            lemma_number_end(s, q);
            if is_ascii_digit(c) {
                lemma_mantissa_end(s, q + 1, false);
            } else {
                lemma_mantissa_end(s, q + 1, true);
            }
        } else if is_letter(c) || c == '_' {
            lemma_ident_end(s, q + 1);
        }
    }
}

/// Whitespace separates tokens and is otherwise ignored: lexing from a
/// whitespace character gives the same token as lexing from the next one.
pub proof fn law_whitespace_skipped(s: Seq<char>, p: int)
    requires
        0 <= p < s.len(),
        is_space(s[p]),
    ensures
        next_token_spec(s, p) == next_token_spec(s, p + 1),
{
    reveal(next_token_spec);
    assert(ws_end(s, p) == ws_end(s, p + 1));
}

/// A `#` comment runs to the end of its line and is ignored: lexing from it
/// gives the same token as lexing from the newline that ends it.
pub proof fn law_line_comment_skipped(s: Seq<char>, p: int)
    requires
        0 <= p < s.len(),
        s[p] == '#',
    ensures
        next_token_spec(s, p) == next_token_spec(s, line_end(s, p)),
{
    reveal(next_token_spec);
    assert(ws_end(s, p) == p);
    assert(line_end(s, p) == line_end(s, p + 1));
}

/// A `/* */` comment, which may hold nested comments, is ignored: lexing
/// from it gives the same token as lexing from just past the `*/` that closes
/// it.
pub proof fn law_block_comment_skipped(s: Seq<char>, p: int)
    requires
        0 <= p,
        p + 1 < s.len(),
        s[p] == '/',
        s[p + 1] == '*',
    ensures
        next_token_spec(s, p) == next_token_spec(s, comment_end(s, p + 2, 1)),
{
    reveal(next_token_spec);
    assert(ws_end(s, p) == p);
}

/// Inside a block comment, an inner `/*` must be closed before the outer one:
/// the comment ends at the `*/` that matches its opening.
pub proof fn law_nested_comment(s: Seq<char>, p: int, depth: nat)
    requires
        0 <= p,
        p + 1 < s.len(),
        s[p] == '/',
        s[p + 1] == '*',
    ensures
        comment_end(s, p, depth) == comment_end(s, p + 2, depth + 1),
{
}

/// Each operator and punctuation mark is the token it spells: `+` is `Plus`,
/// `<=` is `LessEqual`, a `<` not followed by `=` is `Less`, `&&` is `And`,
/// `..` is `DotDot`, and so on; the token ends just after its characters.
pub proof fn law_operator_tokens(s: Seq<char>, p: int)
    requires
        0 <= p <= s.len(),
        skip_trivia(s, p) < s.len(),
    ensures
        s[skip_trivia(s, p)] == '+' ==> next_token_spec(s, p) == Ok::<(TokenView, int), Seq<char>>((TokenView::Plus, skip_trivia(s, p) + 1)),
        s[skip_trivia(s, p)] == '-' ==> next_token_spec(s, p) == Ok::<(TokenView, int), Seq<char>>((TokenView::Minus, skip_trivia(s, p) + 1)),
        s[skip_trivia(s, p)] == '*' ==> next_token_spec(s, p) == Ok::<(TokenView, int), Seq<char>>((TokenView::Star, skip_trivia(s, p) + 1)),
        s[skip_trivia(s, p)] == '/' ==> next_token_spec(s, p) == Ok::<(TokenView, int), Seq<char>>((TokenView::Slash, skip_trivia(s, p) + 1)),
        s[skip_trivia(s, p)] == '(' ==> next_token_spec(s, p) == Ok::<(TokenView, int), Seq<char>>((TokenView::LParen, skip_trivia(s, p) + 1)),
        s[skip_trivia(s, p)] == ')' ==> next_token_spec(s, p) == Ok::<(TokenView, int), Seq<char>>((TokenView::RParen, skip_trivia(s, p) + 1)),
        s[skip_trivia(s, p)] == '[' ==> next_token_spec(s, p) == Ok::<(TokenView, int), Seq<char>>((TokenView::LBracket, skip_trivia(s, p) + 1)),
        s[skip_trivia(s, p)] == ']' ==> next_token_spec(s, p) == Ok::<(TokenView, int), Seq<char>>((TokenView::RBracket, skip_trivia(s, p) + 1)),
        s[skip_trivia(s, p)] == ',' ==> next_token_spec(s, p) == Ok::<(TokenView, int), Seq<char>>((TokenView::Comma, skip_trivia(s, p) + 1)),
        s[skip_trivia(s, p)] == ';' ==> next_token_spec(s, p) == Ok::<(TokenView, int), Seq<char>>((TokenView::Semicolon, skip_trivia(s, p) + 1)),
        s[skip_trivia(s, p)] == ':' ==> next_token_spec(s, p) == Ok::<(TokenView, int), Seq<char>>((TokenView::Colon, skip_trivia(s, p) + 1)),
        s[skip_trivia(s, p)] == '=' && !(skip_trivia(s, p) + 1 < s.len() && s[skip_trivia(s, p) + 1] == '=') ==> next_token_spec(s, p)
            == Ok::<(TokenView, int), Seq<char>>((TokenView::Assign, skip_trivia(s, p) + 1)),
        s[skip_trivia(s, p)] == '<' && !(skip_trivia(s, p) + 1 < s.len() && s[skip_trivia(s, p) + 1] == '=') ==> next_token_spec(s, p)
            == Ok::<(TokenView, int), Seq<char>>((TokenView::Less, skip_trivia(s, p) + 1)),
        s[skip_trivia(s, p)] == '>' && !(skip_trivia(s, p) + 1 < s.len() && s[skip_trivia(s, p) + 1] == '=') ==> next_token_spec(s, p)
            == Ok::<(TokenView, int), Seq<char>>((TokenView::Greater, skip_trivia(s, p) + 1)),
        s[skip_trivia(s, p)] == '!' && !(skip_trivia(s, p) + 1 < s.len() && s[skip_trivia(s, p) + 1] == '=') ==> next_token_spec(s, p)
            == Ok::<(TokenView, int), Seq<char>>((TokenView::Not, skip_trivia(s, p) + 1)),
        s[skip_trivia(s, p)] == '<' && skip_trivia(s, p) + 1 < s.len() && s[skip_trivia(s, p) + 1] == '=' ==> next_token_spec(s, p)
            == Ok::<(TokenView, int), Seq<char>>((TokenView::LessEqual, skip_trivia(s, p) + 2)),
        s[skip_trivia(s, p)] == '>' && skip_trivia(s, p) + 1 < s.len() && s[skip_trivia(s, p) + 1] == '=' ==> next_token_spec(s, p)
            == Ok::<(TokenView, int), Seq<char>>((TokenView::GreaterEqual, skip_trivia(s, p) + 2)),
        s[skip_trivia(s, p)] == '=' && skip_trivia(s, p) + 1 < s.len() && s[skip_trivia(s, p) + 1] == '=' ==> next_token_spec(s, p)
            == Ok::<(TokenView, int), Seq<char>>((TokenView::Equal, skip_trivia(s, p) + 2)),
        s[skip_trivia(s, p)] == '!' && skip_trivia(s, p) + 1 < s.len() && s[skip_trivia(s, p) + 1] == '=' ==> next_token_spec(s, p)
            == Ok::<(TokenView, int), Seq<char>>((TokenView::NotEqual, skip_trivia(s, p) + 2)),
        s[skip_trivia(s, p)] == '&' && skip_trivia(s, p) + 1 < s.len() && s[skip_trivia(s, p) + 1] == '&' ==> next_token_spec(s, p)
            == Ok::<(TokenView, int), Seq<char>>((TokenView::And, skip_trivia(s, p) + 2)),
        s[skip_trivia(s, p)] == '|' && skip_trivia(s, p) + 1 < s.len() && s[skip_trivia(s, p) + 1] == '|' ==> next_token_spec(s, p)
            == Ok::<(TokenView, int), Seq<char>>((TokenView::Or, skip_trivia(s, p) + 2)),
        s[skip_trivia(s, p)] == '.' && skip_trivia(s, p) + 1 < s.len() && s[skip_trivia(s, p) + 1] == '.' ==> next_token_spec(s, p)
            == Ok::<(TokenView, int), Seq<char>>((TokenView::DotDot, skip_trivia(s, p) + 2)),
{
    reveal(token_at);
    reveal(next_token_spec);
}

/// A word (a letter or `_`, then letters, digits and `_`) is a keyword token
/// when it spells one of `if then else elif while do for in step break
/// continue fn`, and otherwise the identifier it spells; either way the token
/// ends just after the word.
pub proof fn law_words(s: Seq<char>, p: int)
    requires
        0 <= p <= s.len(),
        skip_trivia(s, p) < s.len(),
        is_letter(s[skip_trivia(s, p)]) || s[skip_trivia(s, p)] == '_',
    ensures
        next_token_spec(s, p) matches Ok((t, e)) && e == ident_end(s, skip_trivia(s, p) + 1) && ({
            let w = s.subrange(skip_trivia(s, p), e);
            &&& (w == seq!['i', 'f'] ==> t == TokenView::If)
            &&& (w == seq!['t', 'h', 'e', 'n'] ==> t == TokenView::Then)
            &&& (w == seq!['e', 'l', 's', 'e'] ==> t == TokenView::Else)
            &&& (w == seq!['e', 'l', 'i', 'f'] ==> t == TokenView::Elif)
            &&& (w == seq!['w', 'h', 'i', 'l', 'e'] ==> t == TokenView::While)
            &&& (w == seq!['d', 'o'] ==> t == TokenView::Do)
            &&& (w == seq!['f', 'o', 'r'] ==> t == TokenView::For)
            &&& (w == seq!['i', 'n'] ==> t == TokenView::In)
            &&& (w == seq!['s', 't', 'e', 'p'] ==> t == TokenView::Step)
            &&& (w == seq!['b', 'r', 'e', 'a', 'k'] ==> t == TokenView::Break)
            &&& (w == seq!['c', 'o', 'n', 't', 'i', 'n', 'u', 'e'] ==> t == TokenView::Continue)
            &&& (w == seq!['f', 'n'] ==> t == TokenView::Fn)
            &&& (w != seq!['i', 'f'] && w != seq!['t', 'h', 'e', 'n'] && w != seq!['e', 'l', 's', 'e'] && w != seq!['e', 'l', 'i', 'f'] && w != seq!['w', 'h', 'i', 'l', 'e'] && w != seq!['d', 'o'] && w != seq!['f', 'o', 'r'] && w != seq!['i', 'n'] && w != seq!['s', 't', 'e', 'p'] && w != seq!['b', 'r', 'e', 'a', 'k'] && w != seq!['c', 'o', 'n', 't', 'i', 'n', 'u', 'e'] && w != seq!['f', 'n'] ==> t == TokenView::Ident(w))
        }),
{
    reveal(token_at);
    reveal(next_token_spec);
    let q = skip_trivia(s, p);
    let c = s[q];
    assert(single_char_token(c) is None);
    assert(!(q + 1 < s.len() && two_char_token(c, s[q + 1]) is Some));
    assert(c != '"' && !is_ascii_digit(c) && c != '.');
}

/// Inside a string literal, `\n`, `\t` and `\r` stand for a newline, a tab
/// and a carriage return, and a backslash before any other character stands
/// for that character (so `\"` is a quote and `\\` a backslash); any other
/// character stands for itself, and a `"` ends the literal.
pub proof fn law_string_characters(s: Seq<char>, p: int)
    requires
        0 <= p < s.len(),
    ensures
        s[p] == '"' ==> string_body(s, p) == (Seq::<char>::empty(), p + 1),
        s[p] == '\\' && p + 1 < s.len() ==> string_body(s, p).0 == seq![
            if s[p + 1] == 'n' {
                '\n'
            } else if s[p + 1] == 't' {
                '\t'
            } else if s[p + 1] == 'r' {
                '\r'
            } else {
                s[p + 1]
            },
        ] + string_body(s, p + 2).0,
        s[p] != '"' && !(s[p] == '\\' && p + 1 < s.len()) ==> string_body(s, p).0 == seq![s[p]]
            + string_body(s, p + 1).0,
{
}

proof fn lemma_digit_run_mantissa(s: Seq<char>, q: int, i: int)
    requires
        0 <= q <= i < s.len(),
        forall|x: int| q <= x < i ==> is_ascii_digit(#[trigger] s[x]),
        !is_ascii_digit(s[i]) && s[i] != '.',
    ensures
        mantissa_end(s, q, false) == i,
    decreases i - q,
{
    if q < i {
        lemma_digit_run_mantissa(s, q + 1, i);
    }
}

proof fn lemma_digit_run(s: Seq<char>, k: int, j: int)
    requires
        0 <= k <= j <= s.len(),
        forall|x: int| k <= x < j ==> is_ascii_digit(#[trigger] s[x]),
        j == s.len() || !is_ascii_digit(s[j]),
    ensures
        digits_end(s, k) == j,
    decreases j - k,
{
    if k < j {
        lemma_digit_run(s, k + 1, j);
    }
}

/// A number with an exponent, `digits (e|E) sign? digits`, is one number
/// token holding all of it (`2e5`, `7E-3`, `1e+9`).
pub proof fn law_number_with_exponent(s: Seq<char>, p: int, i: int, k: int, j: int)
    requires
        0 <= p <= s.len(),
        skip_trivia(s, p) < i,
        forall|x: int| skip_trivia(s, p) <= x < i ==> is_ascii_digit(#[trigger] s[x]),
        i + 1 < s.len(),
        s[i] == 'e' || s[i] == 'E',
        k == (if s[i + 1] == '+' || s[i + 1] == '-' {
            i + 2
        } else {
            i + 1
        }),
        k < j <= s.len(),
        forall|x: int| k <= x < j ==> is_ascii_digit(#[trigger] s[x]),
        j == s.len() || !is_ascii_digit(s[j]),
    ensures
        next_token_spec(s, p) == Ok::<(TokenView, int), Seq<char>>(
            (TokenView::Number(s.subrange(skip_trivia(s, p), j)), j),
        ),
{
    reveal(token_at);
    reveal(next_token_spec);
    let q = skip_trivia(s, p);
    lemma_skip_trivia(s, p);
    assert(is_ascii_digit(s[q]));
    assert(is_ascii_digit(s[k]));
    lemma_digit_run_mantissa(s, q, i);
    lemma_digit_run(s, k, j);
    assert(exponent_end(s, i) == j);
    assert(number_end(s, q) == j);
}

/// Whether a token can start at position `q` of `s`.
pub open spec fn starts_token(s: Seq<char>, q: int) -> bool {
    let c = s[q];
    ||| (q + 1 < s.len() && two_char_token(c, s[q + 1]) is Some)
    ||| single_char_token(c) is Some
    ||| c == '"'
    ||| is_ascii_digit(c)
    ||| (c == '.' && q + 1 < s.len() && is_ascii_digit(s[q + 1]))
    ||| is_letter(c)
    ||| c == '_'
}

/// A character that starts no token is reported, not skipped: the next token
/// is the error `Unexpected character: c`.
pub proof fn law_unexpected_character(s: Seq<char>, p: int)
    requires
        0 <= p <= s.len(),
        skip_trivia(s, p) < s.len(),
        !starts_token(s, skip_trivia(s, p)),
    ensures
        next_token_spec(s, p) == Err::<(TokenView, int), Seq<char>>(
            unexpected_char_message(s[skip_trivia(s, p)]),
        ),
{
    reveal(token_at);
    reveal(next_token_spec);
}

/// A `.` that starts neither `..` nor a number such as `.5` is an error.
pub proof fn law_lone_dot(s: Seq<char>, p: int)
    requires
        0 <= p <= s.len(),
        skip_trivia(s, p) < s.len(),
        s[skip_trivia(s, p)] == '.',
        !(skip_trivia(s, p) + 1 < s.len() && (s[skip_trivia(s, p) + 1] == '.' || is_ascii_digit(
            s[skip_trivia(s, p) + 1],
        ))),
    ensures
        next_token_spec(s, p) == Err::<(TokenView, int), Seq<char>>(unexpected_char_message('.')),
{
    reveal(token_at);
    reveal(next_token_spec);
}

/// A `.` followed by a digit starts a number: `.5` is the number `.5`.
pub proof fn law_leading_dot_number(s: Seq<char>, p: int)
    requires
        0 <= p <= s.len(),
        skip_trivia(s, p) + 1 < s.len(),
        s[skip_trivia(s, p)] == '.',
        is_ascii_digit(s[skip_trivia(s, p) + 1]),
    ensures
        next_token_spec(s, p) matches Ok((TokenView::Number(t), _)) && t[0] == '.',
{
    reveal(token_at);
    reveal(next_token_spec);
    let q = skip_trivia(s, p);
    lemma_skip_trivia(s, p);
    lemma_number_end(s, q);
    lemma_mantissa_end(s, q + 1, true);
}

// ---------------------------------------------------------------------------
// The lexer.
// ---------------------------------------------------------------------------

/// The lexer state: the input characters and the current position.
pub struct Lexer {
    input: Vec<char>,
    pos: usize,
}

/// The number of newlines in `s`.
pub open spec fn count_newlines(s: Seq<char>) -> nat
    decreases s.len(),
{
    if s.len() == 0 {
        0
    } else {
        count_newlines(s.drop_last()) + if s.last() == '\n' { 1nat } else { 0nat }
    }
}

/// The number of characters after the last newline of `s` (all of them when
/// there is none).
pub open spec fn chars_since_newline(s: Seq<char>) -> nat
    decreases s.len(),
{
    if s.len() == 0 {
        0
    } else if s.last() == '\n' {
        0
    } else {
        chars_since_newline(s.drop_last()) + 1
    }
}

pub proof fn lemma_line_counts_bounded(s: Seq<char>)
    ensures
        count_newlines(s) <= s.len(),
        chars_since_newline(s) <= s.len(),
    decreases s.len(),
{
    if s.len() > 0 {
        lemma_line_counts_bounded(s.drop_last());
    }
}

impl Lexer {
    /// The characters being lexed.
    pub closed spec fn text(&self) -> Seq<char> {
        self.input@
    }

    /// The current position (an index into [`Self::text`]).
    pub closed spec fn position(&self) -> nat {
        self.pos as nat
    }

    /// The position never passes the end of the input.
    #[verifier::type_invariant]
    pub closed spec fn wf(&self) -> bool {
        &&& self.pos <= self.input@.len()
        &&& self.input@.len() < usize::MAX
        &&& utf8_len(self.input@) < usize::MAX
    }

    /// Creates a lexer positioned at the start of `input`.
    /// `input` must be shorter than `usize::MAX` bytes, as every `str` is.
    pub fn new(input: &str) -> (l: Self)
        requires
            utf8_len(input@) < usize::MAX,
        ensures
            l.wf(),
            l.text() == input@,
            l.position() == 0,
    {
        proof {
            law_utf8_len(input@);
        }
        Lexer { input: chars_of(input), pos: 0 }
    }

    /// The line and column (both counted from 1) and the byte offset of the
    /// current position.
    pub fn current_position(&self) -> (p: Position)
        ensures
            p.line == count_newlines(self.text().take(self.position() as int)) + 1,
            p.column == chars_since_newline(self.text().take(self.position() as int)) + 1,
            p.offset == utf8_len(self.text().take(self.position() as int)),
    {
        proof {
            use_type_invariant(self);
        }
        let mut line: usize = 1;
        let mut column: usize = 1;
        let mut offset: usize = 0;
        let mut i: usize = 0;
        while i < self.pos
            invariant
                self.wf(),
                i <= self.pos,
                line == count_newlines(self.input@.take(i as int)) + 1,
                column == chars_since_newline(self.input@.take(i as int)) + 1,
                offset == utf8_len(self.input@.take(i as int)),
            decreases self.pos - i,
        {
            let ghost prefix = self.input@.take(i as int);
            assert(self.input@.take(i + 1).drop_last() == prefix);
            proof {
                lemma_line_counts_bounded(prefix);
                lemma_utf8_len_prefix(self.input@, i + 1, self.input@.len() as int);
                assert(self.input@.take(self.input@.len() as int) == self.input@);
            }
            offset = offset + utf8_width_of(self.input[i]);
            if self.input[i] == '\n' {
                line = line + 1;
                column = 1;
            } else {
                column = column + 1;
            }
            i = i + 1;
        }
        Position::new(line, column, offset)
    }

    /// The character at index `i` of the input, if any.
    fn char_at(&self, i: usize) -> (r: Option<char>)
        ensures
            r == char_at(self.input@, i as int),
    {
        if i < self.input.len() {
            Some(self.input[i])
        } else {
            None
        }
    }

    /// The character at the current position, if any.
    fn peek_char(&self) -> (r: Option<char>)
        ensures
            r == char_at(self.input@, self.pos as int),
    {
        self.char_at(self.pos)
    }

    /// Skips whitespace characters.
    fn skip_whitespace(&mut self)
        requires
            old(self).wf(),
        ensures
            final(self).wf(),
            final(self).input@ == old(self).input@,
            final(self).pos == ws_end(old(self).input@, old(self).pos as int),
    {
        while self.pos < self.input.len() && space(self.input[self.pos])
            invariant
                self.wf(),
                self.input@ == old(self).input@,
                ws_end(self.input@, self.pos as int) == ws_end(
                    old(self).input@,
                    old(self).pos as int,
                ),
            decreases self.input@.len() - self.pos,
        {
            self.pos = self.pos + 1;
        }
    }

    /// Skips to the end of a `#` comment (the newline itself stays).
    fn skip_line_comment(&mut self)
        requires
            old(self).wf(),
        ensures
            final(self).wf(),
            final(self).input@ == old(self).input@,
            final(self).pos == line_end(old(self).input@, old(self).pos as int),
    {
        while self.pos < self.input.len() && self.input[self.pos] != '\n'
            invariant
                self.wf(),
                self.input@ == old(self).input@,
                line_end(self.input@, self.pos as int) == line_end(
                    old(self).input@,
                    old(self).pos as int,
                ),
            decreases self.input@.len() - self.pos,
        {
            self.pos = self.pos + 1;
        }
    }

    /// Skips a nested block comment whose opening `/*` is at the current position.
    fn skip_multiline_comment(&mut self)
        requires
            old(self).wf(),
            old(self).pos + 2 <= old(self).input@.len(),
        ensures
            final(self).wf(),
            final(self).input@ == old(self).input@,
            final(self).pos == comment_end(old(self).input@, old(self).pos + 2, 1),
    {
        self.pos = self.pos + 2;
        let mut depth: usize = 1;
        let ghost s = self.input@;
        let ghost target = comment_end(s, self.pos as int, 1);
        loop
            invariant_except_break
                self.wf(),
                self.input@ == s,
                1 <= depth <= self.pos,
                comment_end(s, self.pos as int, depth as nat) == target,
            ensures
                self.wf(),
                self.input@ == s,
                self.pos == target,
            decreases self.input@.len() - self.pos,
        {
            if self.pos >= self.input.len() {
                break;
            }
            let c = self.input[self.pos];
            let next = self.char_at(self.pos + 1);
            if c == '/' && next == Some('*') {
                self.pos = self.pos + 2;
                depth = depth + 1;
            } else if c == '*' && next == Some('/') {
                self.pos = self.pos + 2;
                if depth <= 1 {
                    break;
                }
                depth = depth - 1;
            } else {
                self.pos = self.pos + 1;
            }
        }
    }

    /// Skips whitespace and comments.
    fn skip_trivia(&mut self)
        requires
            old(self).wf(),
        ensures
            final(self).wf(),
            final(self).input@ == old(self).input@,
            final(self).pos == skip_trivia(old(self).input@, old(self).pos as int),
    {
        let ghost s = self.input@;
        loop
            invariant_except_break
                self.wf(),
                self.input@ == s,
                skip_trivia(s, self.pos as int) == skip_trivia(s, old(self).pos as int),
            ensures
                self.wf(),
                self.input@ == s,
                self.pos == skip_trivia(s, old(self).pos as int),
            decreases self.input@.len() - self.pos,
        {
            let ghost p0 = self.pos as int;
            self.skip_whitespace();
            proof {
                lemma_ws_end(s, p0);
            }
            let c = self.peek_char();
            if c == Some('#') {
                proof {
                    lemma_line_end(s, self.pos + 1);
                    assert(line_end(s, self.pos as int) == line_end(s, self.pos + 1));
                }
                self.skip_line_comment();
            } else if c == Some('/') && self.char_at(self.pos + 1) == Some('*') {
                proof {
                    lemma_comment_end(s, self.pos + 2, 1);
                }
                self.skip_multiline_comment();
            } else {
                break;
            }
        }
    }

    /// Reads a numeric literal starting at the current position.
    ///
    /// A `.` belongs to the literal only if it is the first one and is
    /// followed by a digit, so `1..10` lexes as `1`, `..`, `10`.
    fn read_number(&mut self) -> (text: String)
        requires
            old(self).wf(),
        ensures
            final(self).wf(),
            final(self).input@ == old(self).input@,
            final(self).pos == number_end(old(self).input@, old(self).pos as int),
            text@ == old(self).input@.subrange(old(self).pos as int, final(self).pos as int),
    {
        let ghost s = self.input@;
        let start = self.pos;
        let mut has_dot = false;
        let mut digits: Vec<char> = Vec::new();
        loop
            invariant_except_break
                self.wf(),
                self.input@ == s,
                start <= self.pos,
                mantissa_end(s, self.pos as int, has_dot) == mantissa_end(s, start as int, false),
                digits@ == s.subrange(start as int, self.pos as int),
            ensures
                self.wf(),
                self.input@ == s,
                start <= self.pos,
                self.pos == mantissa_end(s, start as int, false),
                digits@ == s.subrange(start as int, self.pos as int),
            decreases self.input@.len() - self.pos,
        {
            if self.pos >= self.input.len() {
                break;
            }
            let c = self.input[self.pos];
            if ascii_digit(c) {
                digits.push(c);
                self.pos = self.pos + 1;
            } else if c == '.' && !has_dot && self.pos + 1 < self.input.len() && ascii_digit(
                self.input[self.pos + 1],
            ) {
                digits.push(c);
                self.pos = self.pos + 1;
                has_dot = true;
            } else {
                break;
            }
            assert(digits@ == s.subrange(start as int, self.pos as int));
        }
        let m = self.pos;
        let n = self.input.len();
        if m < n && (self.input[m] == 'e' || self.input[m] == 'E') {
            let d = if m + 1 < n && (self.input[m + 1] == '+' || self.input[m + 1] == '-') {
                m + 2
            } else {
                m + 1
            };
            if d < n && ascii_digit(self.input[d]) {
                let mut j = m;
                while j < d
                    invariant
                        self.wf(),
                        self.input@ == s,
                        n == s.len(),
                        start <= m <= j <= d < n,
                        self.pos == m,
                        digits@ == s.subrange(start as int, j as int),
                    decreases d - j,
                {
                    digits.push(self.input[j]);
                    assert(digits@ == s.subrange(start as int, j + 1));
                    j = j + 1;
                }
                while j < n && ascii_digit(self.input[j])
                    invariant
                        self.wf(),
                        self.input@ == s,
                        n == s.len(),
                        start <= m <= d <= j <= n,
                        self.pos == m,
                        digits_end(s, j as int) == digits_end(s, d as int),
                        digits@ == s.subrange(start as int, j as int),
                    decreases n - j,
                {
                    digits.push(self.input[j]);
                    assert(digits@ == s.subrange(start as int, j + 1));
                    j = j + 1;
                }
                self.pos = j;
            }
        }
        string_of(&digits)
    }

    /// Reads a string literal whose opening quote is at the current position.
    ///
    /// Supports escape sequences `\n`, `\t`, `\r`, `\"`, `\\`; any other
    /// escaped character stands for itself.
    fn read_string(&mut self) -> (body: String)
        requires
            old(self).wf(),
            old(self).pos < old(self).input@.len(),
        ensures
            final(self).wf(),
            final(self).input@ == old(self).input@,
            (body@, final(self).pos as int) == string_body(old(self).input@, old(self).pos + 1),
    {
        let ghost s = self.input@;
        self.pos = self.pos + 1;
        let ghost start = self.pos as int;
        let mut out: Vec<char> = Vec::new();
        loop
            invariant_except_break
                self.wf(),
                self.input@ == s,
                string_body(s, start) == (out@ + string_body(s, self.pos as int).0, string_body(
                    s,
                    self.pos as int,
                ).1),
            ensures
                self.wf(),
                self.input@ == s,
                string_body(s, start) == (out@, self.pos as int),
            decreases self.input@.len() - self.pos,
        {
            if self.pos >= self.input.len() {
                assert(out@ + Seq::<char>::empty() == out@);
                break;
            }
            let c = self.input[self.pos];
            if c == '"' {
                self.pos = self.pos + 1;
                assert(out@ + Seq::<char>::empty() == out@);
                break;
            }
            let ghost before = out@;
            if c == '\\' && self.pos + 1 < self.input.len() {
                let next = self.input[self.pos + 1];
                let ch = if next == 'n' {
                    '\n'
                } else if next == 't' {
                    '\t'
                } else if next == 'r' {
                    '\r'
                } else {
                    next
                };
                out.push(ch);
                self.pos = self.pos + 2;
                assert(before + (seq![ch] + string_body(s, self.pos as int).0) == out@
                    + string_body(s, self.pos as int).0);
            } else {
                out.push(c);
                self.pos = self.pos + 1;
                assert(before + (seq![c] + string_body(s, self.pos as int).0) == out@
                    + string_body(s, self.pos as int).0);
            }
        }
        string_of(&out)
    }

    /// Reads an identifier whose first character is at the current position:
    /// that character and the run of letters, digits and underscores after it.
    fn read_ident(&mut self) -> (word: Vec<char>)
        requires
            old(self).wf(),
            old(self).pos < old(self).input@.len(),
        ensures
            final(self).wf(),
            final(self).input@ == old(self).input@,
            final(self).pos == ident_end(old(self).input@, old(self).pos + 1),
            word@ == old(self).input@.subrange(old(self).pos as int, final(self).pos as int),
    {
        let ghost s = self.input@;
        let start = self.pos;
        let mut word: Vec<char> = Vec::new();
        word.push(self.input[self.pos]);
        self.pos = self.pos + 1;
        while self.pos < self.input.len() && (letter_or_digit(self.input[self.pos])
            || self.input[self.pos] == '_')
            invariant
                self.wf(),
                self.input@ == s,
                start < self.pos,
                ident_end(s, self.pos as int) == ident_end(s, start + 1),
                word@ == s.subrange(start as int, self.pos as int),
            decreases self.input@.len() - self.pos,
        {
            word.push(self.input[self.pos]);
            self.pos = self.pos + 1;
            assert(word@ == s.subrange(start as int, self.pos as int));
        }
        word
    }

    /// Returns the next token, skipping whitespace and comments before it.
    ///
    /// A character that starts no token (including a `.` not followed by a
    /// digit or another `.`) is an error: `Unexpected character: c`.
    pub fn next_token(&mut self) -> (r: Result<Token, String>)
        ensures
            final(self).wf(),
            final(self).text() == old(self).text(),
            match next_token_spec(old(self).text(), old(self).position() as int) {
                Ok((t, q)) => r matches Ok(tok) && tok@ == t && final(self).position() == q,
                Err(m) => r matches Err(e) && e@ == m,
            },
    {
        proof {
            use_type_invariant(&*self);
            reveal(token_at);
            reveal(next_token_spec);
        }
        self.skip_trivia();
        let ghost s = self.input@;
        let ghost q = self.pos as int;
        proof {
            lemma_skip_trivia(s, old(self).pos as int);
        }
        if self.pos >= self.input.len() {
            return Ok(Token::Eof);
        }
        let c = self.input[self.pos];
        if self.pos + 1 < self.input.len() {
            let d = self.input[self.pos + 1];
            let two = if c == '<' && d == '=' {
                Some(Token::LessEqual)
            } else if c == '>' && d == '=' {
                Some(Token::GreaterEqual)
            } else if c == '=' && d == '=' {
                Some(Token::Equal)
            } else if c == '!' && d == '=' {
                Some(Token::NotEqual)
            } else if c == '&' && d == '&' {
                Some(Token::And)
            } else if c == '|' && d == '|' {
                Some(Token::Or)
            } else if c == '.' && d == '.' {
                Some(Token::DotDot)
            } else {
                None
            };
            if let Some(t) = two {
                self.pos = self.pos + 2;
                return Ok(t);
            }
        }
        let one = if c == '+' {
            Some(Token::Plus)
        } else if c == '-' {
            Some(Token::Minus)
        } else if c == '*' {
            Some(Token::Star)
        } else if c == '/' {
            Some(Token::Slash)
        } else if c == '(' {
            Some(Token::LParen)
        } else if c == ')' {
            Some(Token::RParen)
        } else if c == '[' {
            Some(Token::LBracket)
        } else if c == ']' {
            Some(Token::RBracket)
        } else if c == '=' {
            Some(Token::Assign)
        } else if c == ',' {
            Some(Token::Comma)
        } else if c == ';' {
            Some(Token::Semicolon)
        } else if c == '<' {
            Some(Token::Less)
        } else if c == '>' {
            Some(Token::Greater)
        } else if c == '!' {
            Some(Token::Not)
        } else if c == ':' {
            Some(Token::Colon)
        } else {
            None
        };
        if let Some(t) = one {
            self.pos = self.pos + 1;
            return Ok(t);
        }
        if c == '"' {
            let body = self.read_string();
            return Ok(Token::String(body));
        }
        if ascii_digit(c) || (c == '.' && self.pos + 1 < self.input.len() && ascii_digit(
            self.input[self.pos + 1],
        )) {
            let text = self.read_number();
            return Ok(Token::Number(text));
        }
        if letter(c) || c == '_' {
            let word = self.read_ident();
            return Ok(keyword_token(word));
        }
        let mut msg = String::from_str("Unexpected character: ");
        push_char(&mut msg, c);
        Err(msg)
    }
}

/// The keyword token for `word`, or an identifier token holding it.
fn keyword_token(word: Vec<char>) -> (t: Token)
    ensures
        t@ == (match keyword(word@) {
            Some(k) => k,
            None => TokenView::Ident(word@),
        }),
{
    if spells(&word, &['i', 'f']) {
        Token::If
    } else if spells(&word, &['t', 'h', 'e', 'n']) {
        Token::Then
    } else if spells(&word, &['e', 'l', 's', 'e']) {
        Token::Else
    } else if spells(&word, &['e', 'l', 'i', 'f']) {
        Token::Elif
    } else if spells(&word, &['w', 'h', 'i', 'l', 'e']) {
        Token::While
    } else if spells(&word, &['d', 'o']) {
        Token::Do
    } else if spells(&word, &['f', 'o', 'r']) {
        Token::For
    } else if spells(&word, &['i', 'n']) {
        Token::In
    } else if spells(&word, &['s', 't', 'e', 'p']) {
        Token::Step
    } else if spells(&word, &['b', 'r', 'e', 'a', 'k']) {
        Token::Break
    } else if spells(&word, &['c', 'o', 'n', 't', 'i', 'n', 'u', 'e']) {
        Token::Continue
    } else if spells(&word, &['f', 'n']) {
        Token::Fn
    } else {
        Token::Ident(string_of(&word))
    }
}

} // verus!
