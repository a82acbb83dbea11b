use crate::span::Span;
use crate::text::{span_fits, span_text};
use vstd::prelude::*;

verus! {

/// The three bracket shapes the lexer knows.
#[derive(Debug, Clone, Copy, PartialEq, Eq, Structural)]
pub enum Delimiter {
    Parenthesis,
    Brace,
    Bracket,
}

impl Delimiter {
    pub open spec fn close_char(self) -> char {
        match self {
            Delimiter::Parenthesis => ')',
            Delimiter::Brace => '}',
            Delimiter::Bracket => ']',
        }
    }

    /// The character that closes this delimiter.
    pub fn close(&self) -> (r: char)
        ensures
            r == self.close_char(),
    {
        match self {
            Delimiter::Parenthesis => ')',
            Delimiter::Brace => '}',
            Delimiter::Bracket => ']',
        }
    }

    pub fn is_bracket(&self) -> (r: bool)
        ensures
            r == (*self is Bracket),
    {
        match self {
            Delimiter::Bracket => true,
            _ => false,
        }
    }
}

#[derive(Debug, Clone, Copy, PartialEq, Eq, Structural)]
pub enum LiteralKind {
    String,
    Integer,
    Float,
    Boolean,
    Char,
}

#[derive(Debug, Clone, Copy, PartialEq, Eq, Structural)]
pub enum TokenKind {
    OpenDelimiter(Delimiter),
    CloseDelimiter(Delimiter),
    /// `;` up to the end of the line.
    LineComment,
    Literal(LiteralKind),
    /// `'`
    Quote,
    /// Any other run of non-whitespace, non-delimiting characters.
    Sequence,
    Eof,
}

#[derive(Debug, Clone, Copy, PartialEq, Eq, Structural)]
pub struct Token {
    pub kind: TokenKind,
    pub span: Span,
}

impl Token {
    pub fn new(kind: TokenKind, loc: u32, len: u16) -> (r: Token)
        ensures
            r.kind == kind,
            r.span == (Span { loc, len }),
    {
        Token { kind, span: Span { loc, len } }
    }

    pub fn is_comment(&self) -> (r: bool)
        ensures
            r == (self.kind is LineComment),
    {
        match self.kind {
            TokenKind::LineComment => true,
            _ => false,
        }
    }

    /// The text of the token in `src`.
    pub fn as_str<'a>(&self, src: &'a str) -> (r: &'a str)
        requires
            span_fits(src@, self.span),
        ensures
            r@ == span_text(src@, self.span),
    {
        self.span.in_src(src)
    }

    pub fn is_eof(&self) -> (r: bool)
        ensures
            r == (self.kind is Eof),
    {
        match self.kind {
            TokenKind::Eof => true,
            _ => false,
        }
    }
}

} // verus!
