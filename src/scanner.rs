//! The single-pass scanner: a cursor over the input characters that records
//! tokens and errors as it goes.
use vstd::prelude::*;
use crate::error::{ErrorView, ScanError};
use crate::lexical::{
    char_at, digit_run, finish, is_digit, is_letter, keyword_kind, lemma_newlines_bound,
    lemma_run_until_bound, lemma_step_bounds, newlines, run_until, scan_from, scan_result, step,
    step_errors, step_tokens, word_run, Pass,
};
use crate::token::{Kind, Literal, LiteralView, Token, TokenView};

verus! {

/// Relies on `str::chars` gathered by `Vec::from_iter`: the characters of `s`
/// in order.
#[verifier::external_body]
fn chars_of(s: &str) -> (r: Vec<char>)
    ensures
        r@ == s@,
{
    Vec::from_iter(s.chars())
}

/// Relies on `String::from_iter` over `&char`: a string of these characters in
/// order.
#[verifier::external_body]
fn text_of(chars: &[char]) -> (r: String)
    ensures
        r@ == chars@,
{
    String::from_iter(chars)
}

pub fn is_letter_char(c: char) -> (r: bool)
    ensures
        r == is_letter(c),
{
    ('a' <= c && c <= 'z') || ('A' <= c && c <= 'Z') || c == '_'
}

pub fn is_digit_char(c: char) -> (r: bool)
    ensures
        r == is_digit(c),
{
    '0' <= c && c <= '9'
}

/// Whether two character sequences are the same.
pub fn same_word(a: &[char], b: &[char]) -> (r: bool)
    ensures
        r == (a@ == b@),
{
    if a.len() != b.len() {
        return false;
    }
    let mut i: usize = 0;
    while i < a.len()
        invariant
            a@.len() == b@.len(),
            0 <= i <= a@.len(),
            forall|j: int| 0 <= j < i ==> a@[j] == b@[j],
        decreases a@.len() - i,
    {
        if a[i] != b[i] {
            return false;
        }
        i = i + 1;
    }
    assert(a@ =~= b@);
    true
}

/// The reserved word that `text` spells, if any.
pub fn keyword(text: &[char]) -> (r: Option<Kind>)
    ensures
        r == keyword_kind(text@),
{
    if same_word(text, &['t', 'r', 'u', 'e']) {
        Some(Kind::True)
    } else if same_word(text, &['f', 'a', 'l', 's', 'e']) {
        Some(Kind::False)
    } else if same_word(text, &['n', 'i', 'l']) {
        Some(Kind::Nil)
    } else if same_word(text, &['a', 'n', 'd']) {
        Some(Kind::And)
    } else if same_word(text, &['o', 'r']) {
        Some(Kind::Or)
    } else if same_word(text, &['i', 'f']) {
        Some(Kind::If)
    } else if same_word(text, &['e', 'l', 's', 'e']) {
        Some(Kind::Else)
    } else if same_word(text, &['f', 'o', 'r']) {
        Some(Kind::For)
    } else if same_word(text, &['w', 'h', 'i', 'l', 'e']) {
        Some(Kind::While)
    } else if same_word(text, &['c', 'l', 'a', 's', 's']) {
        Some(Kind::Class)
    } else if same_word(text, &['t', 'h', 'i', 's']) {
        Some(Kind::This)
    } else if same_word(text, &['s', 'u', 'p', 'e', 'r']) {
        Some(Kind::Super)
    } else if same_word(text, &['f', 'u', 'n']) {
        Some(Kind::Fun)
    } else if same_word(text, &['r', 'e', 't', 'u', 'r', 'n']) {
        Some(Kind::Return)
    } else if same_word(text, &['v', 'a', 'r']) {
        Some(Kind::Var)
    } else if same_word(text, &['p', 'r', 'i', 'n', 't']) {
        Some(Kind::Print)
    } else {
        None
    }
}

/// The state of one pass: the input, what has been recorded so far, where
/// the current lexeme starts, the cursor and the line counter.
pub struct Scanner {
    source: Vec<char>,
    tokens: Vec<Token>,
    errors: Vec<ScanError>,
    start: usize,
    start_line: usize,
    current: usize,
    line: usize,
}

/// What a `Scanner` stands for.
pub ghost struct ScannerView {
    pub source: Seq<char>,
    pub tokens: Seq<TokenView>,
    pub errors: Seq<ErrorView>,
    /// Index of the first character of the current lexeme.
    pub start: nat,
    /// Line counter when the current lexeme began.
    pub start_line: nat,
    /// Index of the next unread character.
    pub current: nat,
    pub line: nat,
}

impl ScannerView {
    /// Nothing read and nothing recorded yet.
    pub open spec fn fresh(self) -> bool {
        &&& self.tokens.len() == 0
        &&& self.errors.len() == 0
        &&& self.start == 0
        &&& self.start_line == 1
        &&& self.current == 0
        &&& self.line == 1
    }

    /// The state after the step at `start` has recorded its token or error.
    pub open spec fn stepped(self) -> ScannerView {
        let s = step(self.source, self.start as int, self.start_line);
        ScannerView {
            tokens: self.tokens + step_tokens(self.source, self.start as int, self.start_line),
            errors: self.errors + step_errors(self.source, self.start as int, self.start_line),
            current: s.end as nat,
            line: s.line,
            ..self
        }
    }

    /// What has been recorded, followed by what the rest of the input gives.
    pub open spec fn completed(self) -> Pass {
        let rest = scan_from(self.source, self.current as int, self.line);
        Pass { tokens: self.tokens + rest.tokens, errors: self.errors + rest.errors, line: rest.line }
    }
}

pub open spec fn tokens_view(v: Seq<Token>) -> Seq<TokenView> {
    v.map_values(|t: Token| t@)
}

pub open spec fn errors_view(v: Seq<ScanError>) -> Seq<ErrorView> {
    v.map_values(|e: ScanError| e@)
}

/// What the result of `scan` stands for.
pub open spec fn result_view(r: Result<Vec<Token>, Vec<ScanError>>) -> Result<Seq<TokenView>, Seq<ErrorView>> {
    match r {
        Ok(ts) => Ok(tokens_view(ts@)),
        Err(es) => Err(errors_view(es@)),
    }
}

impl View for Scanner {
    type V = ScannerView;

    closed spec fn view(&self) -> ScannerView {
        ScannerView {
            source: self.source@,
            tokens: tokens_view(self.tokens@),
            errors: errors_view(self.errors@),
            start: self.start as nat,
            start_line: self.start_line as nat,
            current: self.current as nat,
            line: self.line as nat,
        }
    }
}

impl Scanner {
    /// The cursors lie within the input, the line counter has grown by at
    /// most one per character read, and the input is short enough for the
    /// counters to fit.
    pub closed spec fn wf(&self) -> bool {
        &&& self.start <= self.current <= self.source@.len()
        &&& self.source@.len() < usize::MAX
        &&& 1 <= self.line <= self.current + 1
        &&& 1 <= self.start_line <= self.start + 1
    }

    /// A scanner over the characters of `source`, on line 1.
    pub fn new(source: &str) -> (r: Scanner)
        requires
            source@.len() < usize::MAX,
        ensures
            r.wf(),
            r@.source == source@,
            r@.fresh(),
    {
        let r = Scanner {
            source: chars_of(source),
            tokens: Vec::new(),
            errors: Vec::new(),
            start: 0,
            start_line: 1,
            current: 0,
            line: 1,
        };
        assert(r@.tokens =~= Seq::<TokenView>::empty());
        assert(r@.errors =~= Seq::<ErrorView>::empty());
        r
    }

    fn is_eof(&self) -> (r: bool)
        ensures
            r == (self.current >= self.source@.len()),
    {
        self.current >= self.source.len()
    }

    fn get_current_char(&self) -> (c: char)
        ensures
            c == char_at(self.source@, self.current as int),
    {
        if self.is_eof() {
            return '\0';
        }
        self.source[self.current]
    }

    fn get_next_char(&self) -> (c: char)
        requires
            self.wf(),
        ensures
            c == char_at(self.source@, self.current + 1),
    {
        let next = self.current + 1;
        if next >= self.source.len() {
            return '\0';
        }
        self.source[next]
    }

    fn is_current_char(&self, c: char) -> (r: bool)
        ensures
            r == (char_at(self.source@, self.current as int) == c),
    {
        self.get_current_char() == c
    }

    /// Consumes the next character if it is `c`.
    fn match_current_char(&mut self, c: char) -> (r: bool)
        requires
            old(self).wf(),
        ensures
            final(self).wf(),
            r == (char_at(old(self).source@, old(self).current as int) == c && old(self).current
                < old(self).source@.len()),
            final(self)@ == (ScannerView {
                current: if r {
                    old(self)@.current + 1
                } else {
                    old(self)@.current
                },
                ..old(self)@
            }),
    {
        if self.is_eof() {
            return false;
        }
        if !self.is_current_char(c) {
            return false;
        }
        self.current = self.current + 1;
        true
    }

    /// Records a token of `kind` with value `literal` over the current lexeme.
    fn append_token_with_literal(&mut self, kind: Kind, literal: Literal)
        requires
            old(self).wf(),
        ensures
            final(self).wf(),
            final(self)@ == (ScannerView {
                tokens: old(self)@.tokens + seq![
                    TokenView {
                        kind,
                        lexeme: old(self)@.source.subrange(
                            old(self)@.start as int,
                            old(self)@.current as int,
                        ),
                        literal: literal@,
                        line: old(self)@.start_line,
                    },
                ],
                ..old(self)@
            }),
    {
        let lexeme = text_of(&self.source.as_slice()[self.start..self.current]);
        let t = Token::new(kind, lexeme, literal, self.start_line);
        let ghost before = self.tokens@;
        self.tokens.push(t);
        assert(tokens_view(self.tokens@) =~= tokens_view(before) + seq![t@]);
    }

    /// Records a token of `kind` without a value over the current lexeme.
    fn append_token(&mut self, kind: Kind)
        requires
            old(self).wf(),
        ensures
            final(self).wf(),
            final(self)@ == (ScannerView {
                tokens: old(self)@.tokens + seq![
                    TokenView {
                        kind,
                        lexeme: old(self)@.source.subrange(
                            old(self)@.start as int,
                            old(self)@.current as int,
                        ),
                        literal: LiteralView::NoValue,
                        line: old(self)@.start_line,
                    },
                ],
                ..old(self)@
            }),
    {
        self.append_token_with_literal(kind, Literal::NoValue);
    }

    /// Records a fault with `message` on the current line.
    fn append_error(&mut self, message: &str)
        requires
            old(self).wf(),
        ensures
            final(self).wf(),
            final(self)@ == (ScannerView {
                errors: old(self)@.errors + seq![ErrorView { message: message@, line: old(self)@.line }],
                ..old(self)@
            }),
    {
        let e = ScanError::new(message, self.line);
        let ghost before = self.errors@;
        self.errors.push(e);
        assert(errors_view(self.errors@) =~= errors_view(before) + seq![e@]);
    }

    /// Reads the rest of an identifier or reserved word whose first
    /// character has been consumed.
    fn scan_token_keyword_or_identifier(&mut self)
        requires
            old(self).wf(),
            old(self).start < old(self).source@.len(),
            old(self).current == old(self).start + 1,
            is_letter(old(self).source@[old(self).start as int]),
            old(self).start_line == old(self).line,
        ensures
            final(self).wf(),
            final(self)@ == old(self)@.stepped(),
    {
        let ghost src = self.source@;
        let ghost end = self.start + 1 + word_run(src, self.start + 1);
        while is_letter_char(self.get_current_char()) || is_digit_char(self.get_current_char())
            invariant
                self.wf(),
                self.source@ == src,
                self@ == (ScannerView { current: self@.current, ..old(self)@ }),
                self.start < self.current,
                self.current + word_run(src, self.current as int) == end,
            decreases src.len() - self.current,
        {
            self.current = self.current + 1;
        }
        let word = &self.source.as_slice()[self.start..self.current];
        match keyword(word) {
            Some(k) => {
                self.append_token(k);
            },
            None => {
                let name = text_of(word);
                self.append_token_with_literal(Kind::Identifier, Literal::Identifier(name));
            },
        }
    }

    /// Reads the rest of a string literal whose opening quote has been
    /// consumed; a string without its closing quote is a fault.
    fn scan_token_string(&mut self)
        requires
            old(self).wf(),
            old(self).start < old(self).source@.len(),
            old(self).current == old(self).start + 1,
            old(self).source@[old(self).start as int] == '"',
            old(self).start_line == old(self).line,
        ensures
            final(self).wf(),
            final(self)@ == old(self)@.stepped(),
    {
        let ghost src = self.source@;
        let ghost close = self.start + 1 + run_until(src, self.start + 1, '"');
        proof {
            lemma_run_until_bound(src, self.start + 1, '"');
            assert(src.subrange(self.start + 1, self.current as int) =~= Seq::<char>::empty());
        }
        while !self.is_current_char('"') && !self.is_eof()
            invariant
                self.wf(),
                self.source@ == src,
                self@ == (ScannerView { current: self@.current, line: self@.line, ..old(self)@ }),
                self.start < self.current <= close <= src.len(),
                self.current + run_until(src, self.current as int, '"') == close,
                self.line == self.start_line + newlines(src.subrange(self.start + 1, self.current as int)),
            decreases src.len() - self.current,
        {
            proof {
                lemma_newlines_bound(src.subrange(self.start + 1, self.current as int));
                assert(src.subrange(self.start + 1, self.current + 1).drop_last()
                    =~= src.subrange(self.start + 1, self.current as int));
            }
            if self.is_current_char('\n') {
                self.line = self.line + 1;
            }
            self.current = self.current + 1;
        }
        if self.is_eof() {
            self.append_error("unterminated string.");
            return;
        }
        self.current = self.current + 1;
        let body = text_of(&self.source.as_slice()[self.start + 1..self.current - 1]);
        self.append_token_with_literal(Kind::String, Literal::String(body));
    }

    /// Reads the rest of a number whose first digit has been consumed: more
    /// digits, and a fraction only where a digit follows the point.
    fn scan_token_number(&mut self)
        requires
            old(self).wf(),
            old(self).start < old(self).source@.len(),
            old(self).current == old(self).start + 1,
            is_digit(old(self).source@[old(self).start as int]),
            old(self).start_line == old(self).line,
        ensures
            final(self).wf(),
            final(self)@ == old(self)@.stepped(),
    {
        let ghost src = self.source@;
        let ghost whole = self.start + 1 + digit_run(src, self.start + 1);
        while is_digit_char(self.get_current_char())
            invariant
                self.wf(),
                self.source@ == src,
                self@ == (ScannerView { current: self@.current, ..old(self)@ }),
                self.start < self.current,
                self.current + digit_run(src, self.current as int) == whole,
            decreases src.len() - self.current,
        {
            self.current = self.current + 1;
        }
        if self.is_current_char('.') && is_digit_char(self.get_next_char()) {
            self.current = self.current + 1;
            let ghost end = whole + 1 + digit_run(src, whole + 1);
            while is_digit_char(self.get_current_char())
                invariant
                    self.wf(),
                    self.source@ == src,
                    self@ == (ScannerView { current: self@.current, ..old(self)@ }),
                    self.start < self.current,
                    self.current + digit_run(src, self.current as int) == end,
                decreases src.len() - self.current,
            {
                self.current = self.current + 1;
            }
        }
        let text = text_of(&self.source.as_slice()[self.start..self.current]);
        self.append_token_with_literal(Kind::Number, Literal::Number(text));
    }

    /// Reads one lexeme from `start` on and records what it gives.
    fn scan_token(&mut self)
        requires
            old(self).wf(),
            old(self).start == old(self).current,
            old(self).current < old(self).source@.len(),
            old(self).start_line == old(self).line,
        ensures
            final(self).wf(),
            final(self)@ == old(self)@.stepped(),
    {
        let ghost src = self.source@;
        proof {
            lemma_step_bounds(src, self.start as int, self.line as nat);
        }
        let c = self.source[self.current];
        self.current = self.current + 1;
        match c {
            '(' => {
                self.append_token(Kind::LeftParen);
            },
            ')' => {
                self.append_token(Kind::RightParen);
            },
            '{' => {
                self.append_token(Kind::LeftBrace);
            },
            '}' => {
                self.append_token(Kind::RightBrace);
            },
            '.' => {
                self.append_token(Kind::Dot);
            },
            ',' => {
                self.append_token(Kind::Comma);
            },
            ';' => {
                self.append_token(Kind::Semicolon);
            },
            '+' => {
                self.append_token(Kind::Plus);
            },
            '-' => {
                self.append_token(Kind::Minus);
            },
            '*' => {
                self.append_token(Kind::Asterisk);
            },
            '/' => {
                if self.match_current_char('/') {
                    let ghost end = self.start + 2 + run_until(src, self.start + 2, '\n');
                    while !self.is_current_char('\n') && !self.is_eof()
                        invariant
                            self.wf(),
                            self.source@ == src,
                            self@ == (ScannerView { current: self@.current, ..old(self)@ }),
                            self.start < self.current,
                            self.current + run_until(src, self.current as int, '\n') == end,
                        decreases src.len() - self.current,
                    {
                        self.current = self.current + 1;
                    }
                } else {
                    self.append_token(Kind::Slash);
                }
            },
            '=' => {
                if self.match_current_char('=') {
                    self.append_token(Kind::Eq);
                } else {
                    self.append_token(Kind::Assign);
                }
            },
            '!' => {
                if self.match_current_char('=') {
                    self.append_token(Kind::Ne);
                } else {
                    self.append_token(Kind::Bang);
                }
            },
            '<' => {
                if self.match_current_char('=') {
                    self.append_token(Kind::Le);
                } else {
                    self.append_token(Kind::Lt);
                }
            },
            '>' => {
                if self.match_current_char('=') {
                    self.append_token(Kind::Ge);
                } else {
                    self.append_token(Kind::Gt);
                }
            },
            ' ' | '\r' | '\t' => {},
            '\n' => {
                self.line = self.line + 1;
            },
            '"' => {
                self.scan_token_string();
            },
            _ => {
                if is_letter_char(c) {
                    self.scan_token_keyword_or_identifier();
                } else if is_digit_char(c) {
                    self.scan_token_number();
                } else {
                    self.append_error("unexpected character.");
                }
            },
        }
    }

    /// Scans the rest of the input and hands over the result: every error
    /// if any was recorded, else every token followed by the end-of-input
    /// marker. On a fresh scanner this is the scan of the whole input.
    pub fn scan(&mut self) -> (r: Result<Vec<Token>, Vec<ScanError>>)
        requires
            old(self).wf(),
        ensures
            final(self).wf(),
            final(self)@.source == old(self)@.source,
            final(self)@.current == old(self)@.source.len(),
            result_view(r) == finish(old(self)@.completed()),
            old(self)@.fresh() ==> result_view(r) == scan_result(old(self)@.source),
    {
        let ghost src = self.source@;
        let ghost goal = old(self)@.completed();
        while !self.is_eof()
            invariant
                self.wf(),
                self.source@ == src,
                self@.completed() == goal,
            decreases src.len() - self.current,
        {
            self.start = self.current;
            self.start_line = self.line;
            let ghost before = self@;
            self.scan_token();
            proof {
                let st = step_tokens(src, before.start as int, before.start_line);
                let se = step_errors(src, before.start as int, before.start_line);
                let rest = scan_from(src, self.current as int, self.line as nat);
                assert(before.tokens + (st + rest.tokens) =~= (before.tokens + st) + rest.tokens);
                assert(before.errors + (se + rest.errors) =~= (before.errors + se) + rest.errors);
            }
        }
        proof {
            assert(self@.tokens + Seq::<TokenView>::empty() =~= self@.tokens);
            assert(self@.errors + Seq::<ErrorView>::empty() =~= self@.errors);
            if old(self)@.fresh() {
                let p = scan_from(src, 0, 1);
                assert(old(self)@.tokens + p.tokens =~= p.tokens);
                assert(old(self)@.errors + p.errors =~= p.errors);
            }
        }
        if self.errors.len() > 0 {
            let mut out: Vec<ScanError> = Vec::new();
            std::mem::swap(&mut out, &mut self.errors);
            return Err(out);
        }
        let eof = Token::eof(self.line);
        let ghost before = self.tokens@;
        self.tokens.push(eof);
        assert(tokens_view(self.tokens@) =~= tokens_view(before).push(eof@));
        let mut out: Vec<Token> = Vec::new();
        std::mem::swap(&mut out, &mut self.tokens);
        Ok(out)
    }
}

} // verus!
