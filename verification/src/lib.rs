//! A small line-oriented scripting language, verified with Verus.
//!
//! A script declares texts and numbers, reads lines and writes them:
//!
//! ```text
//! Text <name> [= <words and $name$ references>]
//! Zahl <name> [= <number or $name$> {+ - * / <number or $name$>}]
//! Input <name>
//! Output <name>
//! ```
//!
//! It runs in three stages. The [`lexer`] turns the source text into tokens,
//! the [`parser`] turns the tokens into statements, and the [`interpreter`]
//! executes the statements against one flat set of variables. Each stage
//! stops at its first error and reports it as a [`error::CodeError`], which
//! names the line and the range of characters that it is about; [`report`]
//! lays such an error out against the source text.
//!
//! What each stage computes is stated as a function on mathematical values:
//! `lex_spec` in [`lexer::grammar`], `parse_spec` in [`parser::grammar`] and
//! `run_spec` in [`interpreter::semantics`]. The executable code is proved to
//! compute exactly these functions, and what holds of all their results is
//! proved beside them, in the `laws` module of each stage; [`agreement`]
//! proves that the lexer and the parser take a line for the same statement.
//!
//! Three things are particular to this language. A number expression has no
//! operator precedence: `2 + 3 * 4` is `(2 + 3) * 4`. Arithmetic wraps around
//! in 64 bits, and only a division by zero is an error. And the words of a text
//! are joined by single spaces, while a variable reference is glued to what
//! stands next to it.

pub mod agreement;
pub mod error;
pub mod interpreter;
pub mod lexer;
pub mod parser;
pub mod report;
pub mod text;
