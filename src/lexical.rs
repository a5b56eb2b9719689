//! The scanning rules as mathematics: what one pass over a character
//! sequence produces.
use vstd::prelude::*;
use crate::error::ErrorView;
use crate::token::{Kind, LiteralView, TokenView, eof_view};

verus! {

/// The character at `i`, or NUL past either end.
pub open spec fn char_at(src: Seq<char>, i: int) -> char {
    if 0 <= i < src.len() {
        src[i]
    } else {
        '\0'
    }
}

pub open spec fn is_letter(c: char) -> bool {
    ('a' <= c && c <= 'z') || ('A' <= c && c <= 'Z') || c == '_'
}

pub open spec fn is_digit(c: char) -> bool {
    '0' <= c && c <= '9'
}

pub open spec fn is_word_char(c: char) -> bool {
    is_letter(c) || is_digit(c)
}

/// Space, carriage return and tab: skipped without a token.
pub open spec fn is_blank(c: char) -> bool {
    c == ' ' || c == '\r' || c == '\t'
}

pub open spec fn is_whitespace(c: char) -> bool {
    is_blank(c) || c == '\n'
}

/// How many identifier characters follow from `i` on.
pub open spec fn word_run(src: Seq<char>, i: int) -> nat
    decreases src.len() - i,
{
    if 0 <= i < src.len() && is_word_char(src[i]) {
        1 + word_run(src, i + 1)
    } else {
        0
    }
}

/// How many decimal digits follow from `i` on.
pub open spec fn digit_run(src: Seq<char>, i: int) -> nat
    decreases src.len() - i,
{
    if 0 <= i < src.len() && is_digit(src[i]) {
        1 + digit_run(src, i + 1)
    } else {
        0
    }
}

/// How many characters follow from `i` on before `stop` or the end.
pub open spec fn run_until(src: Seq<char>, i: int, stop: char) -> nat
    decreases src.len() - i,
{
    if 0 <= i < src.len() && src[i] != stop {
        1 + run_until(src, i + 1, stop)
    } else {
        0
    }
}

/// The number of newline characters in `s`.
pub open spec fn newlines(s: Seq<char>) -> nat
    decreases s.len(),
{
    if s.len() == 0 {
        0
    } else {
        newlines(s.drop_last()) + if s.last() == '\n' {
            1nat
        } else {
            0nat
        }
    }
}

/// The kind of a token made of one character that no other may follow.
pub open spec fn single_kind(c: char) -> Option<Kind> {
    if c == '(' {
        Some(Kind::LeftParen)
    } else if c == ')' {
        Some(Kind::RightParen)
    } else if c == '{' {
        Some(Kind::LeftBrace)
    } else if c == '}' {
        Some(Kind::RightBrace)
    } else if c == '.' {
        Some(Kind::Dot)
    } else if c == ',' {
        Some(Kind::Comma)
    } else if c == ';' {
        Some(Kind::Semicolon)
    } else if c == '+' {
        Some(Kind::Plus)
    } else if c == '-' {
        Some(Kind::Minus)
    } else if c == '*' {
        Some(Kind::Asterisk)
    } else {
        None
    }
}

/// For `= ! < >`: the kind alone, and the kind when `=` follows.
pub open spec fn comparison_kinds(c: char) -> Option<(Kind, Kind)> {
    if c == '=' {
        Some((Kind::Assign, Kind::Eq))
    } else if c == '!' {
        Some((Kind::Bang, Kind::Ne))
    } else if c == '<' {
        Some((Kind::Lt, Kind::Le))
    } else if c == '>' {
        Some((Kind::Gt, Kind::Ge))
    } else {
        None
    }
}

/// The reserved word spelled by `w`, if any; case-sensitive, whole word only.
pub open spec fn keyword_kind(w: Seq<char>) -> Option<Kind> {
    if w == seq!['t', 'r', 'u', 'e'] {
        Some(Kind::True)
    } else if w == seq!['f', 'a', 'l', 's', 'e'] {
        Some(Kind::False)
    } else if w == seq!['n', 'i', 'l'] {
        Some(Kind::Nil)
    } else if w == seq!['a', 'n', 'd'] {
        Some(Kind::And)
    } else if w == seq!['o', 'r'] {
        Some(Kind::Or)
    } else if w == seq!['i', 'f'] {
        Some(Kind::If)
    } else if w == seq!['e', 'l', 's', 'e'] {
        Some(Kind::Else)
    } else if w == seq!['f', 'o', 'r'] {
        Some(Kind::For)
    } else if w == seq!['w', 'h', 'i', 'l', 'e'] {
        Some(Kind::While)
    } else if w == seq!['c', 'l', 'a', 's', 's'] {
        Some(Kind::Class)
    } else if w == seq!['t', 'h', 'i', 's'] {
        Some(Kind::This)
    } else if w == seq!['s', 'u', 'p', 'e', 'r'] {
        Some(Kind::Super)
    } else if w == seq!['f', 'u', 'n'] {
        Some(Kind::Fun)
    } else if w == seq!['r', 'e', 't', 'u', 'r', 'n'] {
        Some(Kind::Return)
    } else if w == seq!['v', 'a', 'r'] {
        Some(Kind::Var)
    } else if w == seq!['p', 'r', 'i', 'n', 't'] {
        Some(Kind::Print)
    } else {
        None
    }
}

/// What one step of the scan does with the lexeme that starts at a position.
pub ghost enum Outcome {
    /// Whitespace or a comment: nothing is recorded.
    Skip,
    /// A token of this kind and value; its lexeme is the text stepped over.
    Emit(Kind, LiteralView),
    /// A fault with this message.
    Fault(Seq<char>),
}

/// One step: its outcome, where the next lexeme starts, and the line counter
/// after it.
pub ghost struct Step {
    pub outcome: Outcome,
    pub end: int,
    pub line: nat,
}

pub open spec fn unexpected_message() -> Seq<char> {
    "unexpected character."@
}

pub open spec fn unterminated_message() -> Seq<char> {
    "unterminated string."@
}

/// End of a number that starts at `pos`: digits, then a point and more
/// digits only where a digit follows the point.
pub open spec fn number_end(src: Seq<char>, pos: int) -> int {
    let whole = pos + 1 + digit_run(src, pos + 1);
    if char_at(src, whole) == '.' && is_digit(char_at(src, whole + 1)) {
        whole + 1 + digit_run(src, whole + 1)
    } else {
        whole
    }
}

/// The step taken at `pos` (which must hold a character) with the line
/// counter at `line`.
pub open spec fn step(src: Seq<char>, pos: int, line: nat) -> Step {
    let c = src[pos];
    if single_kind(c) is Some {
        Step { outcome: Outcome::Emit(single_kind(c)->0, LiteralView::NoValue), end: pos + 1, line }
    } else if c == '/' {
        if char_at(src, pos + 1) == '/' {
            Step { outcome: Outcome::Skip, end: pos + 2 + run_until(src, pos + 2, '\n'), line }
        } else {
            Step { outcome: Outcome::Emit(Kind::Slash, LiteralView::NoValue), end: pos + 1, line }
        }
    } else if comparison_kinds(c) is Some {
        let (alone, paired) = comparison_kinds(c)->0;
        if char_at(src, pos + 1) == '=' {
            Step { outcome: Outcome::Emit(paired, LiteralView::NoValue), end: pos + 2, line }
        } else {
            Step { outcome: Outcome::Emit(alone, LiteralView::NoValue), end: pos + 1, line }
        }
    } else if is_blank(c) {
        Step { outcome: Outcome::Skip, end: pos + 1, line }
    } else if c == '\n' {
        Step { outcome: Outcome::Skip, end: pos + 1, line: line + 1 }
    } else if c == '"' {
        let close = pos + 1 + run_until(src, pos + 1, '"');
        let body = src.subrange(pos + 1, close);
        let after = line + newlines(body);
        if close < src.len() {
            Step { outcome: Outcome::Emit(Kind::String, LiteralView::Text(body)), end: close + 1, line: after }
        } else {
            Step { outcome: Outcome::Fault(unterminated_message()), end: close, line: after }
        }
    } else if is_letter(c) {
        let end = pos + 1 + word_run(src, pos + 1);
        let word = src.subrange(pos, end);
        match keyword_kind(word) {
            Some(k) => Step { outcome: Outcome::Emit(k, LiteralView::NoValue), end, line },
            None => Step { outcome: Outcome::Emit(Kind::Identifier, LiteralView::Identifier(word)), end, line },
        }
    } else if is_digit(c) {
        let end = number_end(src, pos);
        Step { outcome: Outcome::Emit(Kind::Number, LiteralView::Number(src.subrange(pos, end))), end, line }
    } else {
        Step { outcome: Outcome::Fault(unexpected_message()), end: pos + 1, line }
    }
}

/// The tokens that the step at `pos` records: none or one. A token's line is
/// the line of its first character.
pub open spec fn step_tokens(src: Seq<char>, pos: int, line: nat) -> Seq<TokenView> {
    let s = step(src, pos, line);
    match s.outcome {
        Outcome::Emit(kind, literal) => seq![TokenView { kind, lexeme: src.subrange(pos, s.end), literal, line }],
        _ => Seq::empty(),
    }
}

/// The errors that the step at `pos` records: none or one, on the line the
/// counter shows after the step.
pub open spec fn step_errors(src: Seq<char>, pos: int, line: nat) -> Seq<ErrorView> {
    let s = step(src, pos, line);
    match s.outcome {
        Outcome::Fault(message) => seq![ErrorView { message, line: s.line }],
        _ => Seq::empty(),
    }
}

/// What the scan of `src` from `pos` on records, with the line counter at
/// `line` when it starts.
pub ghost struct Pass {
    pub tokens: Seq<TokenView>,
    pub errors: Seq<ErrorView>,
    pub line: nat,
}

pub open spec fn scan_from(src: Seq<char>, pos: int, line: nat) -> Pass
    decreases src.len() - pos,
    via scan_from_decreases
{
    if 0 <= pos < src.len() {
        let s = step(src, pos, line);
        let rest = scan_from(src, s.end, s.line);
        Pass {
            tokens: step_tokens(src, pos, line) + rest.tokens,
            errors: step_errors(src, pos, line) + rest.errors,
            line: rest.line,
        }
    } else {
        Pass { tokens: Seq::empty(), errors: Seq::empty(), line }
    }
}

#[via_fn]
proof fn scan_from_decreases(src: Seq<char>, pos: int, line: nat) {
    if 0 <= pos < src.len() {
        lemma_step_bounds(src, pos, line);
    }
}

/// A step consumes at least one character and stays within the input.
pub proof fn lemma_step_bounds(src: Seq<char>, pos: int, line: nat)
    requires
        0 <= pos < src.len(),
    ensures
        pos < step(src, pos, line).end <= src.len(),
        line <= step(src, pos, line).line,
{
    lemma_word_run_bound(src, pos + 1);
    lemma_digit_run_bound(src, pos + 1);
    lemma_run_until_bound(src, pos + 1, '"');
    lemma_run_until_bound(src, pos + 2, '\n');
    let whole = pos + 1 + digit_run(src, pos + 1);
    if whole + 1 <= src.len() {
        lemma_digit_run_bound(src, whole + 1);
    }
}

pub proof fn lemma_word_run_bound(src: Seq<char>, i: int)
    requires
        0 <= i <= src.len(),
    ensures
        i + word_run(src, i) <= src.len(),
    decreases src.len() - i,
{
    if i < src.len() {
        lemma_word_run_bound(src, i + 1);
    }
}

pub proof fn lemma_digit_run_bound(src: Seq<char>, i: int)
    requires
        0 <= i <= src.len(),
    ensures
        i + digit_run(src, i) <= src.len(),
    decreases src.len() - i,
{
    if i < src.len() {
        lemma_digit_run_bound(src, i + 1);
    }
}

pub proof fn lemma_run_until_bound(src: Seq<char>, i: int, stop: char)
    requires
        0 <= i,
    ensures
        i + run_until(src, i, stop) <= if i <= src.len() { src.len() as int } else { i },
    decreases src.len() - i,
{
    if i < src.len() {
        lemma_run_until_bound(src, i + 1, stop);
    }
}

/// A text holds no more newlines than characters.
pub proof fn lemma_newlines_bound(s: Seq<char>)
    ensures
        newlines(s) <= s.len(),
    decreases s.len(),
{
    if s.len() > 0 {
        lemma_newlines_bound(s.drop_last());
    }
}

/// How a pass ends: every error if there was any, else every token and the
/// end-of-input marker.
pub open spec fn finish(p: Pass) -> Result<Seq<TokenView>, Seq<ErrorView>> {
    if p.errors.len() > 0 {
        Err(p.errors)
    } else {
        Ok(p.tokens.push(eof_view(p.line)))
    }
}

/// The result of scanning `src` from its start on line 1.
pub open spec fn scan_result(src: Seq<char>) -> Result<Seq<TokenView>, Seq<ErrorView>> {
    finish(scan_from(src, 0, 1))
}

} // verus!
