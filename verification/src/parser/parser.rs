use crate::error::{CodeError, Diagnostic};
use crate::lexer::tokens::{token_views, SpecToken, Token, TokenType};
use crate::parser::expressions::{
    statement_views, text_leaf, Expression, ExpressionTypes, IdentifierExpression,
    NumberExpression, NumberExpressionTypes, SpecStatement, SpecText, TextExpression,
    TextExpressionTypes,
};
use crate::parser::grammar::{
    binary, is_operator, lemma_statement_bounds, parse_from, parse_identifier,
    parse_number_chain, parse_number_value, parse_spec, parse_statement, parse_text_value,
    text_chain, text_run_end, token_at,
};
use crate::parser::laws::{law_parse_error_at_token, points_at_token};
use vstd::prelude::*;
use vstd::string::*;

verus! {

/// A parser over one sequence of tokens. It keeps the index of the token that
/// it has reached.
pub struct Parser {
    tokens: Vec<Token>,
    token_idx: usize,
}

impl View for Parser {
    type V = Seq<SpecToken>;

    /// The tokens.
    closed spec fn view(&self) -> Seq<SpecToken> {
        token_views(self.tokens@)
    }
}

impl Parser {
    /// A parser for a sequence of tokens.
    pub fn new(tokens: Vec<Token>) -> (parser: Self)
        ensures
            parser@ == token_views(tokens@),
    {
        Parser { tokens, token_idx: 0 }
    }

    /// The token at an index, or the error for a statement cut short.
    fn get_token(&self, idx: usize) -> (r: Result<&Token, CodeError>)
        ensures
            match token_at(self@, idx as int) {
                Ok(t) => r matches Ok(found) && found@ == t && idx < self.tokens@.len()
                    && *found == self.tokens@[idx as int],
                Err(d) => r matches Err(e) && e@ == d && idx >= self.tokens@.len(),
            },
    {
        if idx < self.tokens.len() {
            Ok(&self.tokens[idx])
        } else {
            let n: usize = self.tokens.len();
            if n != 0 {
                let last_token = &self.tokens[n - 1];
                Err(
                    CodeError::new(
                        last_token.line,
                        last_token.start,
                        last_token.end,
                        "Unknown error while parsing. EOF expected!",
                    ),
                )
            } else {
                Err(CodeError::new(0, 0, 0, "Unknown error while parsing."))
            }
        }
    }

    /// The statements of the tokens, from the first token on, or the first
    /// error in them, which points at one of the tokens.
    pub fn parse(&mut self) -> (r: Result<Vec<Expression>, CodeError>)
        ensures
            final(self)@ == old(self)@,
            match r {
                Ok(statements) => parse_spec(old(self)@) == Ok::<Seq<SpecStatement>, Diagnostic>(
                    statement_views(statements@),
                ),
                Err(e) => parse_spec(old(self)@) == Err::<Seq<SpecStatement>, Diagnostic>(e@),
            },
            r matches Err(e) ==> points_at_token(old(self)@, e@),
    {
        let mut expressions: Vec<Expression> = Vec::new();
        self.token_idx = 0;
        let ghost tokens = self@;
        let ghost mut read: Seq<SpecStatement> = Seq::empty();
        assert(statement_views(expressions@) =~= read);
        assert(prefixed(read, parse_from(tokens, 0)) == parse_from(tokens, 0)) by {
            if let Ok(more) = parse_from(tokens, 0) {
                assert(read + more =~= more);
            }
        }
        while self.token_idx < self.tokens.len()
            invariant
                self.tokens == old(self).tokens,
                tokens == self@,
                self.token_idx <= self.tokens@.len(),
                statement_views(expressions@) == read,
                parse_spec(tokens) == prefixed(read, parse_from(tokens, self.token_idx as int)),
            ensures
                parse_spec(tokens) == Ok::<Seq<SpecStatement>, Diagnostic>(read),
                self.tokens == old(self).tokens,
                statement_views(expressions@) == read,
            decreases self.tokens@.len() - self.token_idx,
        {
            let kind = self.tokens[self.token_idx].token_type;
            match kind {
                TokenType::NEWLINE => {
                    self.token_idx = self.token_idx + 1;
                },
                TokenType::EOF => {
                    assert(read + Seq::<SpecStatement>::empty() =~= read);
                    break ;
                },
                _ => {
                    let ghost idx = self.token_idx as int;
                    proof {
                        lemma_statement_bounds(tokens, idx);
                    }
                    match self.parser_instruction(self.token_idx) {
                        Err(e) => {
                            proof {
                                law_parse_error_at_token(tokens);
                            }
                            return Err(e);
                        },
                        Ok((expression, next)) => {
                            proof {
                                let first = expression@;
                                let rest = parse_from(tokens, next as int);
                                if let Ok(more) = rest {
                                    assert(read + (seq![first] + more) =~= read.push(first)
                                        + more);
                                }
                                assert(statement_views(expressions@.push(expression)) =~= read.push(
                                    first,
                                ));
                                read = read.push(first);
                            }
                            expressions.push(expression);
                            self.token_idx = next;
                        },
                    }
                },
            }
        }
        proof {
            if self.token_idx >= self.tokens@.len() {
                assert(read + Seq::<SpecStatement>::empty() =~= read);
            }
        }
        Ok(expressions)
    }

    /// The statement whose keyword stands at `idx`, and the index behind it.
    fn parser_instruction(&self, idx: usize) -> (r: Result<(Expression, usize), CodeError>)
        requires
            idx < self.tokens@.len(),
        ensures
            match parse_statement(self@, idx as int) {
                Ok((statement, next)) => r matches Ok((found, after)) && found@ == statement
                    && after == next,
                Err(d) => r matches Err(e) && e@ == d,
            },
    {
        let n: usize = self.tokens.len();
        let token = &self.tokens[idx];
        let line: usize = token.line;
        let token_start: usize = token.start;
        let token_end: usize = token.end;
        match token.token_type {
            TokenType::TEXT => {
                let identifier = self.try_get_identifier(idx + 1)?;
                let t = self.get_token(idx + 2)?;
                match t.token_type {
                    TokenType::EQUAL => {
                        let (value, next) = self.try_get_string_value(idx + 3)?;
                        let end: usize = value.end;
                        Ok(
                            (
                                Expression::new(
                                    line,
                                    token_start,
                                    end,
                                    ExpressionTypes::TextAssignment(identifier, value),
                                ),
                                next,
                            ),
                        )
                    },
                    TokenType::NEWLINE | TokenType::EOF => {
                        let value = TextExpression::new(
                            line,
                            token_start,
                            token_end,
                            TextExpressionTypes::Value(String::new()),
                        );
                        Ok(
                            (
                                Expression::new(
                                    line,
                                    token_start,
                                    token_end,
                                    ExpressionTypes::TextAssignment(identifier, value),
                                ),
                                idx + 2,
                            ),
                        )
                    },
                    _ => Err(CodeError::new(t.line, t.start, t.end, "Invalid Assignment")),
                }
            },
            TokenType::ZAHL => {
                let identifier = self.try_get_identifier(idx + 1)?;
                let t = self.get_token(idx + 2)?;
                match t.token_type {
                    TokenType::EQUAL => {
                        let (value, next) = self.try_get_number_value(idx + 3)?;
                        let end: usize = value.end;
                        Ok(
                            (
                                Expression::new(
                                    line,
                                    token_start,
                                    end,
                                    ExpressionTypes::NumberAssignment(identifier, value),
                                ),
                                next,
                            ),
                        )
                    },
                    TokenType::NEWLINE | TokenType::EOF => {
                        let value = NumberExpression::new(
                            line,
                            token_start,
                            token_end,
                            NumberExpressionTypes::Value(0),
                        );
                        Ok(
                            (
                                Expression::new(
                                    line,
                                    token_start,
                                    token_end,
                                    ExpressionTypes::NumberAssignment(identifier, value),
                                ),
                                idx + 2,
                            ),
                        )
                    },
                    _ => Err(CodeError::new(t.line, t.start, t.end, "Invalid Assignment")),
                }
            },
            TokenType::OUTPUT => {
                let identifier = self.try_get_identifier(idx + 1)?;
                let end: usize = identifier.end;
                Ok(
                    (
                        Expression::new(
                            line,
                            token_start,
                            end,
                            ExpressionTypes::OutputStatement(identifier),
                        ),
                        idx + 2,
                    ),
                )
            },
            TokenType::INPUT => {
                let identifier = self.try_get_identifier(idx + 1)?;
                let end: usize = identifier.end;
                Ok(
                    (
                        Expression::new(
                            line,
                            token_start,
                            end,
                            ExpressionTypes::InputStatement(identifier),
                        ),
                        idx + 2,
                    ),
                )
            },
            _ => Err(CodeError::new(token.line, token.start, token.end, "Invalid instruction")),
        }
    }

    /// The name at `idx`: an identifier token.
    fn try_get_identifier(&self, idx: usize) -> (r: Result<IdentifierExpression, CodeError>)
        ensures
            match parse_identifier(self@, idx as int) {
                Ok(name) => r matches Ok(found) && found@ == name && idx < self.tokens@.len(),
                Err(d) => r matches Err(e) && e@ == d,
            },
    {
        let token = self.get_token(idx)?;
        match token.token_type {
            TokenType::IDENTIFIER => Ok(
                IdentifierExpression::new(
                    token.line,
                    token.start,
                    token.end,
                    token.value.clone(),
                ),
            ),
            _ => Err(CodeError::new(token.line, token.start, token.end, "Expected identifier")),
        }
    }

    /// The text value at `idx`, and the index behind it.
    fn try_get_string_value(&self, idx: usize) -> (r: Result<(TextExpression, usize), CodeError>)
        ensures
            match parse_text_value(self@, idx as int) {
                Ok((value, next)) => r matches Ok((found, after)) && found@ == value && after
                    == next,
                Err(d) => r matches Err(e) && e@ == d,
            },
    {
        let first = self.get_token(idx)?;
        let ghost tokens = self@;
        let mut exp_concat: Vec<TextExpression> = Vec::new();
        let mut to: usize = idx;
        while to < self.tokens.len() && (self.tokens[to].token_type == TokenType::VALUE
            || self.tokens[to].token_type == TokenType::IDENTIFIER)
            invariant
                tokens == self@,
                idx <= to <= self.tokens@.len(),
                exp_concat@.len() == to - idx,
                text_run_end(tokens, idx as int) == text_run_end(tokens, to as int),
                forall|k: int|
                    0 <= k < exp_concat@.len() ==> text_leaf(tokens[idx + k]) == Ok::<
                        SpecText,
                        Diagnostic,
                    >(#[trigger] exp_concat@[k]@),
            decreases self.tokens@.len() - to,
        {
            assert(tokens[to as int] == self.tokens@[to as int]@);
            match TextExpression::from_token(&self.tokens[to]) {
                Ok(piece) => {
                    exp_concat.push(piece);
                },
                Err(e) => {
                    return Err(e);
                },
            }
            to = to + 1;
        }
        assert(tokens[to as int] == self.tokens@[to as int]@ || to >= tokens.len());
        if exp_concat.len() == 0 {
            return Err(CodeError::new(first.line, first.start, first.end, "Expected string value"));
        }
        let mut resulting_exp = exp_concat.pop().unwrap();
        while exp_concat.len() > 0
            invariant
                tokens == self@,
                idx + exp_concat@.len() < to <= self.tokens@.len(),
                resulting_exp@ == text_chain(tokens, idx + exp_concat@.len(), to as int),
                forall|k: int|
                    0 <= k < exp_concat@.len() ==> text_leaf(tokens[idx + k]) == Ok::<
                        SpecText,
                        Diagnostic,
                    >(#[trigger] exp_concat@[k]@),
            decreases exp_concat@.len(),
        {
            let ghost k = exp_concat@.len() - 1;
            let expr = exp_concat.pop().unwrap();
            assert(text_leaf(tokens[idx + k]) == Ok::<SpecText, Diagnostic>(expr@));
            resulting_exp = TextExpression::join(expr, resulting_exp);
        }
        Ok((resulting_exp, to))
    }

    /// The number value at `idx`, and the index behind it.
    fn try_get_number_value(&self, idx: usize) -> (r: Result<(NumberExpression, usize), CodeError>)
        ensures
            match parse_number_value(self@, idx as int) {
                Ok((value, next)) => r matches Ok((found, after)) && found@ == value && after
                    == next,
                Err(d) => r matches Err(e) && e@ == d,
            },
    {
        let ghost tokens = self@;
        let n: usize = self.tokens.len();
        let mut value = NumberExpression::from_token(self.get_token(idx)?)?;
        let mut at: usize = idx + 1;
        loop
            invariant
                tokens == self@,
                n == self.tokens@.len(),
                at <= self.tokens@.len(),
                parse_number_value(tokens, idx as int) == parse_number_chain(
                    tokens,
                    at as int,
                    value@,
                ),
            decreases self.tokens@.len() - at,
        {
            let kind = self.get_token(at)?.token_type;
            if !Self::is_math_operation(kind) {
                return Ok((value, at));
            }
            let term = NumberExpression::from_token(self.get_token(at + 1)?)?;
            value = Self::try_get_math_operation(kind, value, term);
            at = at + 2;
        }
    }

    /// Whether a token of this kind is an arithmetic operator.
    fn is_math_operation(kind: TokenType) -> (r: bool)
        ensures
            r == is_operator(kind),
    {
        match kind {
            TokenType::ADD | TokenType::SUB | TokenType::MULT | TokenType::DIV => true,
            _ => false,
        }
    }

    /// The operation of one operator on two operands.
    fn try_get_math_operation(kind: TokenType, prev_val: NumberExpression, val1: NumberExpression)
        -> (r: NumberExpression)
        requires
            is_operator(kind),
        ensures
            r@ == binary(kind, prev_val@, val1@),
    {
        let line: usize = prev_val.line;
        let start: usize = prev_val.start;
        let end: usize = val1.end;
        let operation = match kind {
            TokenType::ADD => NumberExpressionTypes::Add(Box::new(prev_val), Box::new(val1)),
            TokenType::SUB => NumberExpressionTypes::Sub(Box::new(prev_val), Box::new(val1)),
            TokenType::MULT => NumberExpressionTypes::Mult(Box::new(prev_val), Box::new(val1)),
            _ => NumberExpressionTypes::Div(Box::new(prev_val), Box::new(val1)),
        };
        NumberExpression::new(line, start, end, operation)
    }
}

/// The statements read so far, followed by what the rest of the tokens gives.
pub open spec fn prefixed(
    read: Seq<SpecStatement>,
    rest: Result<Seq<SpecStatement>, Diagnostic>,
) -> Result<Seq<SpecStatement>, Diagnostic> {
    match rest {
        Ok(more) => Ok(read + more),
        Err(e) => Err(e),
    }
}

} // verus!
