//! Tokens produced by the lexer.
use vstd::prelude::*;

verus! {

/// One token of source text.
#[derive(Debug, PartialEq, Eq)]
pub enum Token {
    Id(String),
    // keywords
    Var,
    Const,
    Print,
    // literals
    Int(i64),
    /// A float literal: its digits and its one `.`, with `_` removed.
    Float(String),
    Str(String),
    Char(char),
    // operators and punctuation
    Assign,
    Gt,
    GtEq,
    Lt,
    LtEq,
    Eq,
    NotEq,
    Not,
    And,
    Or,
    LogicalAnd,
    LogicalOr,
    Plus,
    Minus,
    Star,
    Slash,
    Percent,
    Semi,
    Colon,
    Dot,
    Comma,
}

/// The mathematical content of a token: text payloads as character
/// sequences, every other token as itself.
pub ghost enum Lexeme {
    Id(Seq<char>),
    Float(Seq<char>),
    Str(Seq<char>),
    Other(Token),
}

impl View for Token {
    type V = Lexeme;

    open spec fn view(&self) -> Lexeme {
        match self {
            Token::Id(s) => Lexeme::Id(s@),
            Token::Float(s) => Lexeme::Float(s@),
            Token::Str(s) => Lexeme::Str(s@),
            _ => Lexeme::Other(*self),
        }
    }
}

/// A token with the line and column (both from 1) of its first character.
#[derive(Debug, PartialEq, Eq)]
pub struct LocatedToken {
    pub token: Token,
    pub line: u64,
    pub col: u64,
}

} // verus!
