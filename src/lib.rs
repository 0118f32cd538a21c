//! The scanner of a small dynamically-typed scripting language: it turns a
//! source text into classified tokens with literal values and line
//! numbers, and reports malformed input, all proved against the lexical
//! grammar in [`grammar`].
pub mod error;
pub mod grammar;
pub mod laws;
pub mod literal;
pub mod scanner;
mod text;
pub mod token;

pub use error::{LexError, LexErrorKind};
pub use literal::Literal;
pub use scanner::Scanner;
pub use token::{Token, TokenType};
