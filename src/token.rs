use vstd::prelude::*;

verus! {

/// The closed set of lexical categories.
#[derive(Debug, Clone, Copy, PartialEq, Eq, Structural)]
pub enum Kind {
    LeftParen,
    RightParen,
    LeftBrace,
    RightBrace,
    Dot,
    Comma,
    Semicolon,
    Plus,
    Minus,
    Asterisk,
    Slash,
    Assign,
    Bang,
    Eq,
    Ne,
    Lt,
    Gt,
    Le,
    Ge,
    Identifier,
    String,
    Number,
    True,
    False,
    Nil,
    And,
    Or,
    If,
    Else,
    For,
    While,
    Class,
    This,
    Super,
    Fun,
    Return,
    Var,
    Print,
    Eof,
}

/// A decoded value carried by a token.
///
/// A number keeps its decimal text (digits with at most one inner point);
/// turning it into a machine number is left to the caller.
#[derive(Debug, Clone, PartialEq)]
pub enum Literal {
    NoValue,
    Identifier(String),
    String(String),
    Number(String),
}

/// What a `Literal` stands for, with text as a sequence of characters.
pub ghost enum LiteralView {
    NoValue,
    Identifier(Seq<char>),
    Text(Seq<char>),
    Number(Seq<char>),
}

impl View for Literal {
    type V = LiteralView;

    open spec fn view(&self) -> LiteralView {
        match self {
            Literal::NoValue => LiteralView::NoValue,
            Literal::Identifier(s) => LiteralView::Identifier(s@),
            Literal::String(s) => LiteralView::Text(s@),
            Literal::Number(s) => LiteralView::Number(s@),
        }
    }
}

impl Literal {
    pub fn none() -> (r: Literal)
        ensures
            r@ == LiteralView::NoValue,
    {
        Literal::NoValue
    }

    pub fn identifier(value: &str) -> (r: Literal)
        ensures
            r@ == LiteralView::Identifier(value@),
    {
        Literal::Identifier(value.to_owned())
    }

    pub fn string(value: &str) -> (r: Literal)
        ensures
            r@ == LiteralView::Text(value@),
    {
        Literal::String(value.to_owned())
    }

    /// A number literal from its decimal text.
    pub fn number(text: &str) -> (r: Literal)
        ensures
            r@ == LiteralView::Number(text@),
    {
        Literal::Number(text.to_owned())
    }
}

/// One lexical unit: its category, the source text it came from, its decoded
/// value and the line of its first character.
#[derive(Debug, Clone, PartialEq)]
pub struct Token {
    kind: Kind,
    lexeme: String,
    literal: Literal,
    line: usize,
}

/// What a `Token` stands for.
pub ghost struct TokenView {
    pub kind: Kind,
    pub lexeme: Seq<char>,
    pub literal: LiteralView,
    pub line: nat,
}

impl View for Token {
    type V = TokenView;

    closed spec fn view(&self) -> TokenView {
        TokenView {
            kind: self.kind,
            lexeme: self.lexeme@,
            literal: self.literal@,
            line: self.line as nat,
        }
    }
}

/// The end-of-input marker on a given line.
pub open spec fn eof_view(line: nat) -> TokenView {
    TokenView { kind: Kind::Eof, lexeme: Seq::empty(), literal: LiteralView::NoValue, line }
}

impl Token {
    /// Stores the four parts as given.
    pub fn new(kind: Kind, lexeme: String, literal: Literal, line: usize) -> (r: Token)
        ensures
            r@ == (TokenView { kind, lexeme: lexeme@, literal: literal@, line: line as nat }),
    {
        Token { kind, lexeme, literal, line }
    }

    /// The end-of-input marker: empty lexeme, no literal.
    pub fn eof(line: usize) -> (r: Token)
        ensures
            r@ == eof_view(line as nat),
    {
        Token { kind: Kind::Eof, lexeme: String::new(), literal: Literal::NoValue, line }
    }

    pub fn kind(&self) -> (r: Kind)
        ensures
            r == self@.kind,
    {
        self.kind
    }

    pub fn lexeme(&self) -> (r: &str)
        ensures
            r@ == self@.lexeme,
    {
        self.lexeme.as_str()
    }

    pub fn literal(&self) -> (r: &Literal)
        ensures
            r@ == self@.literal,
    {
        &self.literal
    }

    pub fn line(&self) -> (r: usize)
        ensures
            r == self@.line,
    {
        self.line
    }
}

} // verus!
