use vstd::prelude::*;

verus! {

/// A lexical unit of the expression language: a parenthesis, one of the four
/// operator symbols, or a signed 64-bit integer literal.
#[derive(Debug, Clone, Copy, PartialEq, Eq)]
pub enum Token {
    LParen,
    RParen,
    Star,
    Plus,
    Slash,
    Minus,
    Num(i64),
}

/// Everything that can go wrong between reading a line of text and producing
/// its integer value.
#[derive(Debug, Clone, Copy, PartialEq, Eq)]
pub enum EvalError {
    /// The lexer met a character that belongs to no token.
    InvalidToken(char),
    /// The parser needed another token to start or to finish a production,
    /// but none remained.
    UnexpectedEndOfInput,
    /// A unary minus was not immediately followed by an integer literal.
    ExpectedNumberAfterMinus,
    /// A parenthesized group was not closed by `)`.
    ExpectedClosingParen,
    /// The lookahead token fits no production at this point.
    UnexpectedToken(Token),
    /// A division met a zero right-hand value.
    DivisionByZero,
    /// A literal or an intermediate result falls outside the signed 64-bit
    /// range.
    Overflow,
}

} // verus!
