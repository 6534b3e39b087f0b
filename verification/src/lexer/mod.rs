//! From source text to tokens.

pub mod grammar;
pub mod laws;
pub mod lexer;
pub mod tokens;

pub use self::lexer::Lexer;
pub use self::tokens::{SpecToken, Token, TokenType};
