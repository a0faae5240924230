//! Lexical tokens of the source language.

use vstd::prelude::*;

verus! {

/// Classification of a lexical token.
#[derive(Clone, Copy, PartialEq, Eq, Structural, Debug)]
pub enum TokenKind {
    String,
    Int,
    Real,
    Operator,
    Keyword,
    Comment,
    Assign,
    Bracket,
    CurlyBracket,
    Logical,
    SpecialSymbol,
}

/// One lexical token: its kind, its text, and the line/column where it began.
#[derive(Debug)]
pub struct Token {
    pub typ: TokenKind,
    pub value: Vec<char>,
    pub line: usize,
    pub col: usize,
}

/// Mathematical image of a token: the text as a sequence of characters.
pub struct TokenView {
    pub typ: TokenKind,
    pub value: Seq<char>,
    pub line: nat,
    pub col: nat,
}

impl View for Token {
    type V = TokenView;

    open spec fn view(&self) -> TokenView {
        TokenView { typ: self.typ, value: self.value@, line: self.line as nat, col: self.col as nat }
    }
}

impl Token {
    /// Builds a token from its parts.
    pub fn new(typ: TokenKind, value: Vec<char>, line: usize, col: usize) -> (t: Token)
        ensures
            t@.typ == typ,
            t@.value == value@,
            t@.line == line,
            t@.col == col,
    {
        Token { typ, value, line, col }
    }
}

} // verus!
