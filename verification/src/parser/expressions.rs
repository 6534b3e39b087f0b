//! The syntax tree: statements over text and number expressions. Each node
//! carries the line and the range of characters of the source that it was read
//! from. Beside each type stands what a value of it says, with mathematical
//! integers and sequences of characters in place of machine ones.

use crate::error::{CodeError, Diagnostic};
use crate::lexer::tokens::{SpecToken, Token, TokenType};
use crate::text::{parse_decimal, parse_i64};
use vstd::prelude::*;
use vstd::string::*;

verus! {

/// What an `IdentifierExpression` says.
pub struct SpecIdentifier {
    pub line: int,
    pub start: int,
    pub end: int,
    pub var_name: Seq<char>,
}

/// What a `NumberExpressionTypes` says.
pub enum SpecNumberKind {
    Value(i64),
    Identifier(SpecIdentifier),
    Add(Box<SpecNumber>, Box<SpecNumber>),
    Sub(Box<SpecNumber>, Box<SpecNumber>),
    Mult(Box<SpecNumber>, Box<SpecNumber>),
    Div(Box<SpecNumber>, Box<SpecNumber>),
}

/// What a `NumberExpression` says.
pub struct SpecNumber {
    pub line: int,
    pub start: int,
    pub end: int,
    pub expression: SpecNumberKind,
}

/// What a `TextExpressionTypes` says.
pub enum SpecTextKind {
    Concat(Box<SpecText>, Box<SpecText>),
    Value(Seq<char>),
    Identifier(SpecIdentifier),
}

/// What a `TextExpression` says.
pub struct SpecText {
    pub line: int,
    pub start: int,
    pub end: int,
    pub expression: SpecTextKind,
}

/// What an `ExpressionTypes` says.
pub enum SpecStatementKind {
    TextAssignment(SpecIdentifier, SpecText),
    NumberAssignment(SpecIdentifier, SpecNumber),
    InputStatement(SpecIdentifier),
    OutputStatement(SpecIdentifier),
}

/// What an `Expression`, a statement of the program, says.
pub struct SpecStatement {
    pub line: int,
    pub start: int,
    pub end: int,
    pub expression: SpecStatementKind,
}

/// The name of a variable, where it stands in the source.
#[derive(Debug, PartialEq)]
pub struct IdentifierExpression {
    pub line: usize,
    pub start: usize,
    pub end: usize,
    pub var_name: String,
}

impl View for IdentifierExpression {
    type V = SpecIdentifier;

    open spec fn view(&self) -> SpecIdentifier {
        SpecIdentifier {
            line: self.line as int,
            start: self.start as int,
            end: self.end as int,
            var_name: self.var_name@,
        }
    }
}

impl IdentifierExpression {
    /// The name `var_name` at the characters `start..end` of line `line`.
    pub fn new(line: usize, start: usize, end: usize, var_name: String) -> (r: Self)
        ensures
            r == (IdentifierExpression { line, start, end, var_name }),
    {
        IdentifierExpression { line, start, end, var_name }
    }
}

/// What a number expression is: a literal, a variable reference, or one of
/// the four operations on two number expressions.
#[derive(Debug, PartialEq)]
pub enum NumberExpressionTypes {
    Value(i64),
    Identifier(IdentifierExpression),
    Add(Box<NumberExpression>, Box<NumberExpression>),
    Sub(Box<NumberExpression>, Box<NumberExpression>),
    Mult(Box<NumberExpression>, Box<NumberExpression>),
    Div(Box<NumberExpression>, Box<NumberExpression>),
}

/// What a text expression is: a literal, a variable reference, or two text
/// expressions side by side.
#[derive(Debug, PartialEq)]
pub enum TextExpressionTypes {
    Concat(TextExpression, TextExpression),
    Value(String),
    Identifier(IdentifierExpression),
}

impl TextExpressionTypes {
    /// What the expression says.
    pub open spec fn model(self) -> SpecTextKind
        decreases self,
    {
        match self {
            TextExpressionTypes::Concat(a, b) => SpecTextKind::Concat(
                Box::new(a.model()),
                Box::new(b.model()),
            ),
            TextExpressionTypes::Value(s) => SpecTextKind::Value(s@),
            TextExpressionTypes::Identifier(id) => SpecTextKind::Identifier(id@),
        }
    }

    /// Whether the expression is a variable reference, or a concatenation
    /// whose leftmost piece is one.
    pub fn is_identifier(&self) -> (r: bool)
        ensures
            r == self@.is_identifier(),
        decreases self,
    {
        match self {
            TextExpressionTypes::Identifier(_) => true,
            TextExpressionTypes::Concat(exp1, _) => exp1.get_expression().is_identifier(),
            _ => false,
        }
    }
}

impl View for TextExpressionTypes {
    type V = SpecTextKind;

    open spec fn view(&self) -> SpecTextKind {
        self.model()
    }
}

impl SpecTextKind {
    /// Whether the expression is a variable reference, or a concatenation
    /// whose leftmost piece is one.
    pub open spec fn is_identifier(self) -> bool
        decreases self,
    {
        match self {
            SpecTextKind::Identifier(_) => true,
            SpecTextKind::Concat(a, _) => a.expression.is_identifier(),
            SpecTextKind::Value(_) => false,
        }
    }
}

/// What a statement is: a declaration of a text or of a number, with the
/// expression for its value, or the reading or writing of a variable.
#[derive(Debug, PartialEq)]
pub enum ExpressionTypes {
    TextAssignment(IdentifierExpression, TextExpression),
    NumberAssignment(IdentifierExpression, NumberExpression),
    InputStatement(IdentifierExpression),
    OutputStatement(IdentifierExpression),
}

impl View for ExpressionTypes {
    type V = SpecStatementKind;

    open spec fn view(&self) -> SpecStatementKind {
        match self {
            ExpressionTypes::TextAssignment(id, value) => SpecStatementKind::TextAssignment(
                id@,
                value@,
            ),
            ExpressionTypes::NumberAssignment(id, value) => SpecStatementKind::NumberAssignment(
                id@,
                value@,
            ),
            ExpressionTypes::InputStatement(id) => SpecStatementKind::InputStatement(id@),
            ExpressionTypes::OutputStatement(id) => SpecStatementKind::OutputStatement(id@),
        }
    }
}

/// A statement, where it stands in the source.
#[derive(Debug, PartialEq)]
pub struct Expression {
    pub line: usize,
    pub start: usize,
    pub end: usize,
    pub expression: ExpressionTypes,
}

impl View for Expression {
    type V = SpecStatement;

    open spec fn view(&self) -> SpecStatement {
        SpecStatement {
            line: self.line as int,
            start: self.start as int,
            end: self.end as int,
            expression: self.expression@,
        }
    }
}

impl Expression {
    /// The statement `expression` at the characters `start..end` of line `line`.
    pub fn new(line: usize, start: usize, end: usize, expression: ExpressionTypes) -> (r: Self)
        ensures
            r == (Expression { line, start, end, expression }),
    {
        Expression { line, expression, start, end }
    }

    /// What the statement is.
    pub fn get_expression(&self) -> (r: &ExpressionTypes)
        ensures
            *r == self.expression,
    {
        &self.expression
    }
}

/// The statements of a vector as what they say.
pub open spec fn statement_views(statements: Seq<Expression>) -> Seq<SpecStatement> {
    statements.map_values(|s: Expression| s@)
}

/// A text expression, where it stands in the source.
#[derive(Debug, PartialEq)]
pub struct TextExpression {
    pub line: usize,
    pub start: usize,
    pub end: usize,
    pub expression: Box<TextExpressionTypes>,
}

impl View for TextExpression {
    type V = SpecText;

    open spec fn view(&self) -> SpecText {
        self.model()
    }
}

/// The variable reference that an identifier token names.
pub open spec fn identifier_of(t: SpecToken) -> SpecIdentifier {
    SpecIdentifier { line: t.line, start: t.start, end: t.end, var_name: t.value }
}

/// The leaf of a text expression that one token makes: a value token is a
/// literal, an identifier token a variable reference, and no other will do.
pub open spec fn text_leaf(t: SpecToken) -> Result<SpecText, Diagnostic> {
    match t.token_type {
        TokenType::VALUE => Ok(
            SpecText {
                line: t.line,
                start: t.start,
                end: t.end,
                expression: SpecTextKind::Value(t.value),
            },
        ),
        TokenType::IDENTIFIER => Ok(
            SpecText {
                line: t.line,
                start: t.start,
                end: t.end,
                expression: SpecTextKind::Identifier(identifier_of(t)),
            },
        ),
        _ => Err(
            Diagnostic {
                line: t.line,
                start: t.start,
                end: t.end,
                msg: "Error while parsing value!"@,
            },
        ),
    }
}

/// The two expressions one after the other: a node from the start of the
/// first to the end of the second.
pub open spec fn text_join(a: SpecText, b: SpecText) -> SpecText {
    SpecText {
        line: a.line,
        start: a.start,
        end: b.end,
        expression: SpecTextKind::Concat(Box::new(a), Box::new(b)),
    }
}

impl TextExpression {
    /// What the expression says.
    pub open spec fn model(self) -> SpecText
        decreases self,
    {
        SpecText {
            line: self.line as int,
            start: self.start as int,
            end: self.end as int,
            expression: self.expression.model(),
        }
    }

    /// The text expression `expression` at the characters `start..end` of
    /// line `line`.
    pub fn new(line: usize, start: usize, end: usize, expression: TextExpressionTypes) -> (r: Self)
        ensures
            r == (TextExpression { line, start, end, expression: Box::new(expression) }),
    {
        TextExpression { line, start, end, expression: Box::new(expression) }
    }

    /// The leaf that a token makes, at the place of the token: a literal for a
    /// value token, a variable reference for an identifier token, and an error
    /// for any other.
    pub fn from_token(token: &Token) -> (r: Result<Self, CodeError>)
        ensures
            match text_leaf(token@) {
                Ok(leaf) => r matches Ok(e) && e@ == leaf,
                Err(d) => r matches Err(e) && e@ == d,
            },
    {
        match token.token_type {
            TokenType::VALUE => Ok(
                TextExpression::new(
                    token.line,
                    token.start,
                    token.end,
                    TextExpressionTypes::Value(token.value.clone()),
                ),
            ),
            TokenType::IDENTIFIER => Ok(
                TextExpression::new(
                    token.line,
                    token.start,
                    token.end,
                    TextExpressionTypes::Identifier(
                        IdentifierExpression::new(
                            token.line,
                            token.start,
                            token.end,
                            token.value.clone(),
                        ),
                    ),
                ),
            ),
            _ => Err(
                CodeError::new(token.line, token.start, token.end, "Error while parsing value!"),
            ),
        }
    }

    /// The two expressions side by side, from the start of the first to the
    /// end of the second.
    pub fn join(text_exp1: TextExpression, text_exp2: TextExpression) -> (r: Self)
        ensures
            r@ == text_join(text_exp1@, text_exp2@),
    {
        TextExpression::new(
            text_exp1.line,
            text_exp1.start,
            text_exp2.end,
            TextExpressionTypes::Concat(text_exp1, text_exp2),
        )
    }

    /// What the expression is.
    pub fn get_expression(&self) -> (r: &TextExpressionTypes)
        ensures
            *r == *self.expression,
    {
        &*self.expression
    }
}

/// A number expression, where it stands in the source.
#[derive(Debug, PartialEq)]
pub struct NumberExpression {
    pub line: usize,
    pub start: usize,
    pub end: usize,
    pub expression: Box<NumberExpressionTypes>,
}

impl NumberExpressionTypes {
    /// What the expression says.
    pub open spec fn model(self) -> SpecNumberKind
        decreases self,
    {
        match self {
            NumberExpressionTypes::Value(v) => SpecNumberKind::Value(v),
            NumberExpressionTypes::Identifier(id) => SpecNumberKind::Identifier(id@),
            NumberExpressionTypes::Add(a, b) => SpecNumberKind::Add(
                Box::new(a.model()),
                Box::new(b.model()),
            ),
            NumberExpressionTypes::Sub(a, b) => SpecNumberKind::Sub(
                Box::new(a.model()),
                Box::new(b.model()),
            ),
            NumberExpressionTypes::Mult(a, b) => SpecNumberKind::Mult(
                Box::new(a.model()),
                Box::new(b.model()),
            ),
            NumberExpressionTypes::Div(a, b) => SpecNumberKind::Div(
                Box::new(a.model()),
                Box::new(b.model()),
            ),
        }
    }
}

impl View for NumberExpressionTypes {
    type V = SpecNumberKind;

    open spec fn view(&self) -> SpecNumberKind {
        self.model()
    }
}

impl View for NumberExpression {
    type V = SpecNumber;

    open spec fn view(&self) -> SpecNumber {
        self.model()
    }
}

/// The leaf of a number expression that one token makes: a value token is a
/// literal, which must read as a signed 64-bit decimal number, an identifier
/// token is a variable reference, and no other will do.
pub open spec fn number_leaf(t: SpecToken) -> Result<SpecNumber, Diagnostic> {
    match t.token_type {
        TokenType::VALUE => match parse_decimal(t.value) {
            Some(v) => Ok(
                SpecNumber {
                    line: t.line,
                    start: t.start,
                    end: t.end,
                    expression: SpecNumberKind::Value(v),
                },
            ),
            None => Err(
                Diagnostic {
                    line: t.line,
                    start: t.start,
                    end: t.end,
                    msg: "Could not parse number"@,
                },
            ),
        },
        TokenType::IDENTIFIER => Ok(
            SpecNumber {
                line: t.line,
                start: t.start,
                end: t.end,
                expression: SpecNumberKind::Identifier(identifier_of(t)),
            },
        ),
        _ => Err(
            Diagnostic {
                line: t.line,
                start: t.start,
                end: t.end,
                msg: "Error while parsing value!"@,
            },
        ),
    }
}

impl NumberExpression {
    /// What the expression says.
    pub open spec fn model(self) -> SpecNumber
        decreases self,
    {
        SpecNumber {
            line: self.line as int,
            start: self.start as int,
            end: self.end as int,
            expression: self.expression.model(),
        }
    }

    /// The number expression `expression` at the characters `start..end` of
    /// line `line`.
    pub fn new(line: usize, start: usize, end: usize, expression: NumberExpressionTypes) -> (r:
        Self)
        ensures
            r == (NumberExpression { line, start, end, expression: Box::new(expression) }),
    {
        NumberExpression { line, start, end, expression: Box::new(expression) }
    }

    /// The leaf that a token makes, at the place of the token: a literal for a
    /// value token that spells a number, a variable reference for an
    /// identifier token, and an error for any other.
    pub fn from_token(token: &Token) -> (r: Result<Self, CodeError>)
        ensures
            match number_leaf(token@) {
                Ok(leaf) => r matches Ok(e) && e@ == leaf,
                Err(d) => r matches Err(e) && e@ == d,
            },
    {
        match token.token_type {
            TokenType::VALUE => {
                if let Some(i64_val) = parse_i64(token.value.as_str()) {
                    Ok(
                        NumberExpression::new(
                            token.line,
                            token.start,
                            token.end,
                            NumberExpressionTypes::Value(i64_val),
                        ),
                    )
                } else {
                    Err(
                        CodeError::new(
                            token.line,
                            token.start,
                            token.end,
                            "Could not parse number",
                        ),
                    )
                }
            },
            TokenType::IDENTIFIER => Ok(
                NumberExpression::new(
                    token.line,
                    token.start,
                    token.end,
                    NumberExpressionTypes::Identifier(
                        IdentifierExpression::new(
                            token.line,
                            token.start,
                            token.end,
                            token.value.clone(),
                        ),
                    ),
                ),
            ),
            _ => Err(
                CodeError::new(token.line, token.start, token.end, "Error while parsing value!"),
            ),
        }
    }

    /// What the expression is.
    pub fn get_expression(&self) -> (r: &NumberExpressionTypes)
        ensures
            *r == *self.expression,
    {
        &*self.expression
    }
}

} // verus!
