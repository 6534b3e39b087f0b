//! From tokens to statements.

pub mod expressions;
pub mod grammar;
pub mod laws;
pub mod parser;

pub use self::expressions::{
    Expression, ExpressionTypes, IdentifierExpression, NumberExpression, NumberExpressionTypes,
    TextExpression, TextExpressionTypes,
};
pub use self::parser::Parser;
