use vstd::prelude::*;

use crate::literal::{option_literal_view, Literal, LiteralView};

verus! {

/// The closed set of lexeme categories.
#[derive(Debug, Clone, Copy, PartialEq, Eq, Structural)]
pub enum TokenType {
    // Single-character tokens.
    LeftParen,
    RightParen,
    LeftBrace,
    RightBrace,
    Comma,
    Dot,
    Minus,
    Plus,
    Semicolon,
    Slash,
    Star,
    // One or two character tokens.
    Bang,
    BangEqual,
    Equal,
    EqualEqual,
    Greater,
    GreaterEqual,
    Less,
    LessEqual,
    // Literals.
    Identifier,
    String,
    Number,
    // Keywords.
    And,
    Class,
    Else,
    False,
    Fun,
    For,
    If,
    Nil,
    Or,
    Print,
    Return,
    Super,
    This,
    True,
    Var,
    While,
    // The synthetic end marker.
    EndOfInput,
}

/// Whether `literal` is the payload that a token of kind `kind` carries:
/// number, string and identifier tokens carry a literal of their own
/// variant, all others carry none.
pub open spec fn literal_fits(kind: TokenType, literal: Option<LiteralView>) -> bool {
    match kind {
        TokenType::Number => literal matches Some(LiteralView::Number(_)),
        TokenType::String => literal matches Some(LiteralView::Str(_)),
        TokenType::Identifier => literal matches Some(LiteralView::Identifier(_)),
        _ => literal is None,
    }
}

/// Mathematical model of a [`Token`].
pub struct TokenView {
    pub kind: TokenType,
    pub lexeme: Seq<char>,
    pub literal: Option<LiteralView>,
    pub line: nat,
}

/// A classified lexeme with its literal payload and its 1-based line.
#[derive(Debug, Clone, PartialEq)]
pub struct Token {
    pub token_type: TokenType,
    lexeme: String,
    literal: Option<Literal>,
    line: u32,
}

impl View for Token {
    type V = TokenView;

    closed spec fn view(&self) -> TokenView {
        TokenView {
            kind: self.token_type,
            lexeme: self.lexeme@,
            literal: option_literal_view(self.literal),
            line: self.line as nat,
        }
    }
}

impl Token {
    /// A token of kind `token_type` on line `line`, with the literal that
    /// its kind carries.
    pub fn new(token_type: TokenType, lexeme: &str, literal: Option<Literal>, line: u32) -> (r:
        Token)
        requires
            literal_fits(token_type, option_literal_view(literal)),
        ensures
            r@ == (TokenView {
                kind: token_type,
                lexeme: lexeme@,
                literal: option_literal_view(literal),
                line: line as nat,
            }),
    {
        Token { token_type, lexeme: lexeme.to_owned(), literal, line }
    }

    /// The exact source text of the token; empty for the end marker.
    pub fn lexeme(&self) -> (r: &str)
        ensures
            r@ == self@.lexeme,
    {
        self.lexeme.as_str()
    }

    /// The value of a number, string or identifier token.
    pub fn literal(&self) -> (r: &Option<Literal>)
        ensures
            option_literal_view(*r) == self@.literal,
    {
        &self.literal
    }

    /// The line on which the token's first character stands.
    pub fn line(&self) -> (r: u32)
        ensures
            r as nat == self@.line,
    {
        self.line
    }
}

} // verus!
