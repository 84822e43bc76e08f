use vstd::prelude::*;

verus! {

/// Kinds of lexical tokens that the structural layer distinguishes.
#[derive(Debug, Clone, Copy, PartialEq, Eq, Structural)]
pub enum TokenKind {
    Def,
    Class,
    Module,
    Begin,
    Case,
    Do,
    If,
    Unless,
    While,
    Until,
    For,
    End,
    /// Any other reserved word (`when`, `else`, `return`, ...).
    Keyword,
    Identifier,
    Constant,
    Number,
    StringLiteral,
    Symbol,
    Operator,
    Punctuation,
    Comment,
    Whitespace,
    Newline,
    Eof,
}

/// A lexical token with its source text and 1-based line.
#[derive(Debug, Clone)]
pub struct Token {
    pub kind: TokenKind,
    pub text: String,
    pub line: usize,
}

} // verus!
