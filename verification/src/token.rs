//! Tokens: a classified, span-tagged minimal lexical unit, together with the
//! specification-level mirror types that contracts speak about.
//!
//! A token is produced once by the lexer and never mutated. Its `kind` is a
//! closed variant set (end-of-file, identifier, number literal, string
//! literal, illegal byte, operators and keywords) and its `span` is a
//! half-open byte range `[start, end)` into the source plus a cached copy of
//! the matched bytes.

use vstd::prelude::*;

verus! {

/// The classification of a token. Identifiers, number literals and string
/// literals carry their raw matched bytes; numbers are not converted to a
/// numeric type at the lexical stage.
#[derive(Debug, PartialEq, Eq)]
pub enum TokenKind {
    EOF,
    Ident(Vec<u8>),
    Number(Vec<u8>),
    StringLiteral(Vec<u8>),
    Illegal,
    Equal,
    Assign,
    Bang,
    NotEqual,
    GreaterThan,
    GreaterOrEqual,
    LessThan,
    LessOrEqual,
    Plus,
    Dash,
    Asterisk,
    Slash,
    Comma,
    Semicolon,
    LParen,
    RParen,
    LSquirly,
    RSquirly,
    LBracket,
    RBracket,
    Function,
    Let,
    If,
    Else,
    True,
    False,
    Return,
}

/// Specification-level token kind: the same variants as `TokenKind`, with
/// byte payloads abstracted to sequences.
#[verifier::ext_equal]
pub enum SpecTokenKind {
    EOF,
    Ident(Seq<u8>),
    Number(Seq<u8>),
    StringLiteral(Seq<u8>),
    Illegal,
    Equal,
    Assign,
    Bang,
    NotEqual,
    GreaterThan,
    GreaterOrEqual,
    LessThan,
    LessOrEqual,
    Plus,
    Dash,
    Asterisk,
    Slash,
    Comma,
    Semicolon,
    LParen,
    RParen,
    LSquirly,
    RSquirly,
    LBracket,
    RBracket,
    Function,
    Let,
    If,
    Else,
    True,
    False,
    Return,
}

impl View for TokenKind {
    type V = SpecTokenKind;

    open spec fn view(&self) -> SpecTokenKind {
        match self {
            TokenKind::EOF => SpecTokenKind::EOF,
            TokenKind::Ident(w) => SpecTokenKind::Ident(w@),
            TokenKind::Number(w) => SpecTokenKind::Number(w@),
            TokenKind::StringLiteral(w) => SpecTokenKind::StringLiteral(w@),
            TokenKind::Illegal => SpecTokenKind::Illegal,
            TokenKind::Equal => SpecTokenKind::Equal,
            TokenKind::Assign => SpecTokenKind::Assign,
            TokenKind::Bang => SpecTokenKind::Bang,
            TokenKind::NotEqual => SpecTokenKind::NotEqual,
            TokenKind::GreaterThan => SpecTokenKind::GreaterThan,
            TokenKind::GreaterOrEqual => SpecTokenKind::GreaterOrEqual,
            TokenKind::LessThan => SpecTokenKind::LessThan,
            TokenKind::LessOrEqual => SpecTokenKind::LessOrEqual,
            TokenKind::Plus => SpecTokenKind::Plus,
            TokenKind::Dash => SpecTokenKind::Dash,
            TokenKind::Asterisk => SpecTokenKind::Asterisk,
            TokenKind::Slash => SpecTokenKind::Slash,
            TokenKind::Comma => SpecTokenKind::Comma,
            TokenKind::Semicolon => SpecTokenKind::Semicolon,
            TokenKind::LParen => SpecTokenKind::LParen,
            TokenKind::RParen => SpecTokenKind::RParen,
            TokenKind::LSquirly => SpecTokenKind::LSquirly,
            TokenKind::RSquirly => SpecTokenKind::RSquirly,
            TokenKind::LBracket => SpecTokenKind::LBracket,
            TokenKind::RBracket => SpecTokenKind::RBracket,
            TokenKind::Function => SpecTokenKind::Function,
            TokenKind::Let => SpecTokenKind::Let,
            TokenKind::If => SpecTokenKind::If,
            TokenKind::Else => SpecTokenKind::Else,
            TokenKind::True => SpecTokenKind::True,
            TokenKind::False => SpecTokenKind::False,
            TokenKind::Return => SpecTokenKind::Return,
        }
    }
}

/// A half-open byte range `[start, end)` into the source together with a
/// cached copy of that substring. Invariant of lexer-produced spans:
/// `end >= start` and `lexeme` equals the source bytes in the range.
#[derive(Debug, PartialEq, Eq)]
pub struct TokenSpan {
    pub start: usize,
    pub end: usize,
    pub lexeme: Vec<u8>,
}

impl TokenSpan {
    pub fn new(start: usize, end: usize, lexeme: Vec<u8>) -> (s: Self)
        ensures
            s.start == start,
            s.end == end,
            s.lexeme == lexeme,
    {
        Self { start, end, lexeme }
    }

    /// Length of the spanned byte range.
    pub fn len(&self) -> (n: usize)
        requires
            self.start <= self.end,
        ensures
            n == self.end - self.start,
    {
        self.end - self.start
    }
}

/// Specification-level token: kind plus span, with mathematical integers for
/// the offsets and a byte sequence for the matched text.
#[verifier::ext_equal]
pub struct SpecToken {
    pub kind: SpecTokenKind,
    pub start: int,
    pub end: int,
    pub lexeme: Seq<u8>,
}

/// A classified, span-tagged lexical unit.
#[derive(Debug, PartialEq, Eq)]
pub struct Token {
    pub kind: TokenKind,
    pub span: TokenSpan,
}

impl View for Token {
    type V = SpecToken;

    open spec fn view(&self) -> SpecToken {
        SpecToken {
            kind: self.kind@,
            start: self.span.start as int,
            end: self.span.end as int,
            lexeme: self.span.lexeme@,
        }
    }
}

impl Token {
    pub fn new(kind: TokenKind, span: TokenSpan) -> (t: Self)
        ensures
            t.kind == kind,
            t.span == span,
    {
        Self { kind, span }
    }
}

/// Copies a byte vector element by element.
pub fn copy_bytes(v: &Vec<u8>) -> (r: Vec<u8>)
    ensures
        r@ == v@,
{
    let mut r: Vec<u8> = Vec::new();
    let mut i: usize = 0;
    while i < v.len()
        invariant
            i <= v.len(),
            r@ == v@.subrange(0, i as int),
        decreases v.len() - i,
    {
        r.push(v[i]);
        i = i + 1;
        proof {
            assert(r@ =~= v@.subrange(0, i as int));
        }
    }
    proof {
        assert(r@ =~= v@);
    }
    r
}

impl Clone for TokenKind {
    fn clone(&self) -> (r: Self)
        ensures
            r@ == self@,
    {
        match self {
            TokenKind::EOF => TokenKind::EOF,
            TokenKind::Ident(w) => TokenKind::Ident(copy_bytes(w)),
            TokenKind::Number(w) => TokenKind::Number(copy_bytes(w)),
            TokenKind::StringLiteral(w) => TokenKind::StringLiteral(copy_bytes(w)),
            TokenKind::Illegal => TokenKind::Illegal,
            TokenKind::Equal => TokenKind::Equal,
            TokenKind::Assign => TokenKind::Assign,
            TokenKind::Bang => TokenKind::Bang,
            TokenKind::NotEqual => TokenKind::NotEqual,
            TokenKind::GreaterThan => TokenKind::GreaterThan,
            TokenKind::GreaterOrEqual => TokenKind::GreaterOrEqual,
            TokenKind::LessThan => TokenKind::LessThan,
            TokenKind::LessOrEqual => TokenKind::LessOrEqual,
            TokenKind::Plus => TokenKind::Plus,
            TokenKind::Dash => TokenKind::Dash,
            TokenKind::Asterisk => TokenKind::Asterisk,
            TokenKind::Slash => TokenKind::Slash,
            TokenKind::Comma => TokenKind::Comma,
            TokenKind::Semicolon => TokenKind::Semicolon,
            TokenKind::LParen => TokenKind::LParen,
            TokenKind::RParen => TokenKind::RParen,
            TokenKind::LSquirly => TokenKind::LSquirly,
            TokenKind::RSquirly => TokenKind::RSquirly,
            TokenKind::LBracket => TokenKind::LBracket,
            TokenKind::RBracket => TokenKind::RBracket,
            TokenKind::Function => TokenKind::Function,
            TokenKind::Let => TokenKind::Let,
            TokenKind::If => TokenKind::If,
            TokenKind::Else => TokenKind::Else,
            TokenKind::True => TokenKind::True,
            TokenKind::False => TokenKind::False,
            TokenKind::Return => TokenKind::Return,
        }
    }
}

impl Clone for TokenSpan {
    fn clone(&self) -> (r: Self)
        ensures
            r.start == self.start,
            r.end == self.end,
            r.lexeme@ == self.lexeme@,
    {
        TokenSpan { start: self.start, end: self.end, lexeme: copy_bytes(&self.lexeme) }
    }
}

impl Clone for Token {
    fn clone(&self) -> (r: Self)
        ensures
            r@ == self@,
    {
        Token { kind: self.kind.clone(), span: self.span.clone() }
    }
}

} // verus!
