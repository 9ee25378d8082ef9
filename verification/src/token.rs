//! Tokens produced by the lexer.

use vstd::prelude::*;

use crate::span::Span;

verus! {

#[derive(Debug, Clone, Copy, Eq, PartialEq, Structural, Default)]
pub enum TokenKind {
    Keyword(Keyword),
    Operator(Operator),
    Separator(Separator),
    Literal(Literal),
    Identifier,
    EndOfFile,
    #[default]
    Error,
}

#[derive(Debug, Clone, Copy, Eq, PartialEq, Structural)]
pub enum Operator {
    Add,
    Minus,
    Star,
    Slash,
    AddAssign,
    SubAssign,
    MulAssign,
    DivAssign,
    Equal,
    NotEqual,
    Assign,
    Not,
    Bar,
    LessThan,
    GreaterThan,
    LessThanEqual,
    GreaterThanEqual,
    ShiftLeft,
    ShiftRight,
    ShiftLeftAssign,
    ShiftRightAssign,
    /// `|>`
    Pipe,
}

#[derive(Debug, Clone, Copy, Eq, PartialEq, Structural)]
pub enum Separator {
    SemiColon,
    Colon,
    Comma,
    Dot,
    Arrow,
    OpenBrace,
    OpenBracket,
    OpenParen,
    CloseBrace,
    CloseBracket,
    CloseParen,
}

#[derive(Debug, Clone, Copy, Eq, PartialEq, Structural)]
pub enum Keyword {
    Fn,
    Pub,
    Shared,
    Module,
    Use,
    Extern,
    Type,
    Return,
    If,
    Else,
    For,
    Break,
    Continue,
    Delete,
    Move,
    Let,
    Mut,
    Const,
    Cast,
}

#[derive(Debug, Clone, Copy, Eq, PartialEq, Structural)]
pub enum Literal {
    String,
    Integer,
    Float,
    True,
    False,
}

#[derive(Debug, Clone, Copy, Eq, PartialEq, Structural, Default)]
pub struct Token {
    pub kind: TokenKind,
    pub span: Span,
}

impl Token {
    pub fn new(kind: TokenKind, span: Span) -> (r: Self)
        ensures
            r == (Token { kind, span }),
    {
        Self { kind, span }
    }

    pub fn is_eof(&self) -> (r: bool)
        ensures
            r == (self.kind == TokenKind::EndOfFile),
    {
        self.kind == TokenKind::EndOfFile
    }

    pub fn is_error(&self) -> (r: bool)
        ensures
            r == (self.kind == TokenKind::Error),
    {
        self.kind == TokenKind::Error
    }

    pub fn is_literal(&self) -> (r: bool)
        ensures
            r == (self.kind is Literal),
    {
        matches!(self.kind, TokenKind::Literal(_))
    }

    pub fn is_keyword(&self) -> (r: bool)
        ensures
            r == (self.kind is Keyword),
    {
        matches!(self.kind, TokenKind::Keyword(_))
    }

    pub fn is_operator(&self) -> (r: bool)
        ensures
            r == (self.kind is Operator),
    {
        matches!(self.kind, TokenKind::Operator(_))
    }

    pub fn is_separator(&self) -> (r: bool)
        ensures
            r == (self.kind is Separator),
    {
        matches!(self.kind, TokenKind::Separator(_))
    }

    pub fn is_identifier(&self) -> (r: bool)
        ensures
            r == (self.kind == TokenKind::Identifier),
    {
        self.kind == TokenKind::Identifier
    }

    pub fn is_integer(&self) -> (r: bool)
        ensures
            r == (self.kind == TokenKind::Literal(Literal::Integer)),
    {
        self.kind == TokenKind::Literal(Literal::Integer)
    }

    pub fn is_float(&self) -> (r: bool)
        ensures
            r == (self.kind == TokenKind::Literal(Literal::Float)),
    {
        self.kind == TokenKind::Literal(Literal::Float)
    }

    pub fn is_string(&self) -> (r: bool)
        ensures
            r == (self.kind == TokenKind::Literal(Literal::String)),
    {
        self.kind == TokenKind::Literal(Literal::String)
    }

    pub fn is_true(&self) -> (r: bool)
        ensures
            r == (self.kind == TokenKind::Literal(Literal::True)),
    {
        self.kind == TokenKind::Literal(Literal::True)
    }

    pub fn is_false(&self) -> (r: bool)
        ensures
            r == (self.kind == TokenKind::Literal(Literal::False)),
    {
        self.kind == TokenKind::Literal(Literal::False)
    }

    pub fn is_bool(&self) -> (r: bool)
        ensures
            r == (self.kind == TokenKind::Literal(Literal::True) || self.kind == TokenKind::Literal(
                Literal::False,
            )),
    {
        self.is_true() || self.is_false()
    }

    pub fn is_sp(&self, sp: Separator) -> (r: bool)
        ensures
            r == (self.kind == TokenKind::Separator(sp)),
    {
        self.kind == TokenKind::Separator(sp)
    }

    pub fn is_lt(&self, lt: Literal) -> (r: bool)
        ensures
            r == (self.kind == TokenKind::Literal(lt)),
    {
        self.kind == TokenKind::Literal(lt)
    }

    pub fn is_op(&self, op: Operator) -> (r: bool)
        ensures
            r == (self.kind == TokenKind::Operator(op)),
    {
        self.kind == TokenKind::Operator(op)
    }

    pub fn is_kw(&self, kw: Keyword) -> (r: bool)
        ensures
            r == (self.kind == TokenKind::Keyword(kw)),
    {
        self.kind == TokenKind::Keyword(kw)
    }

    pub fn is_done(&self) -> (r: bool)
        ensures
            r == (self.kind == TokenKind::EndOfFile),
    {
        self.kind == TokenKind::EndOfFile
    }
}

} // verus!
