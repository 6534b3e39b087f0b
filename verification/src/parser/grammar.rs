//! What the parser computes, as a function from the tokens to the statements.
//!
//! `NEWLINE` tokens separate statements and `EOF` ends them. A statement
//! starts with its keyword, and the keyword alone says how the rest is read:
//! one token of lookahead is enough.

use crate::error::Diagnostic;
use crate::lexer::tokens::{SpecToken, TokenType};
use crate::parser::expressions::{
    identifier_of, number_leaf, text_join, text_leaf, SpecIdentifier, SpecNumber, SpecNumberKind,
    SpecStatement, SpecStatementKind, SpecText, SpecTextKind,
};
use vstd::prelude::*;

verus! {

/// The error for a statement that the end of the tokens cuts short: it points
/// at the last token, if there is one.
pub open spec fn end_of_tokens(tokens: Seq<SpecToken>) -> Diagnostic {
    if tokens.len() != 0 {
        Diagnostic {
            line: tokens.last().line,
            start: tokens.last().start,
            end: tokens.last().end,
            msg: "Unknown error while parsing. EOF expected!"@,
        }
    } else {
        Diagnostic { line: 0, start: 0, end: 0, msg: "Unknown error while parsing."@ }
    }
}

/// The token at an index, which a statement that is being read needs.
pub open spec fn token_at(tokens: Seq<SpecToken>, idx: int) -> Result<SpecToken, Diagnostic> {
    if 0 <= idx < tokens.len() {
        Ok(tokens[idx])
    } else {
        Err(end_of_tokens(tokens))
    }
}

/// The error that points at one token.
pub open spec fn error_at(t: SpecToken, msg: Seq<char>) -> Diagnostic {
    Diagnostic { line: t.line, start: t.start, end: t.end, msg }
}

/// The name that a statement declares, reads or writes: an identifier token.
pub open spec fn parse_identifier(tokens: Seq<SpecToken>, idx: int) -> Result<
    SpecIdentifier,
    Diagnostic,
> {
    match token_at(tokens, idx) {
        Err(e) => Err(e),
        Ok(t) => if t.token_type == TokenType::IDENTIFIER {
            Ok(identifier_of(t))
        } else {
            Err(error_at(t, "Expected identifier"@))
        },
    }
}

/// The kinds of token that a text value is made of.
pub open spec fn is_text_piece(kind: TokenType) -> bool {
    kind == TokenType::VALUE || kind == TokenType::IDENTIFIER
}

/// Where the run of value and identifier tokens that starts at `idx` ends.
pub open spec fn text_run_end(tokens: Seq<SpecToken>, idx: int) -> int
    decreases tokens.len() - idx,
{
    if 0 <= idx < tokens.len() && is_text_piece(tokens[idx].token_type) {
        text_run_end(tokens, idx + 1)
    } else {
        idx
    }
}

/// The tokens `from..to`, each a piece of text, as one expression: a single
/// piece is a leaf, and several are joined from the right, so that the first
/// piece is the left side of the outermost node.
pub open spec fn text_chain(tokens: Seq<SpecToken>, from: int, to: int) -> SpecText
    decreases to - from,
{
    if to - from <= 1 {
        text_leaf(tokens[from])->Ok_0
    } else {
        text_join(text_leaf(tokens[from])->Ok_0, text_chain(tokens, from + 1, to))
    }
}

/// A text value at `idx`: the longest run of value and identifier tokens,
/// which must not be empty, and the index behind it.
pub open spec fn parse_text_value(tokens: Seq<SpecToken>, idx: int) -> Result<
    (SpecText, int),
    Diagnostic,
> {
    match token_at(tokens, idx) {
        Err(e) => Err(e),
        Ok(t) => {
            let to = text_run_end(tokens, idx);
            if to == idx {
                Err(error_at(t, "Expected string value"@))
            } else {
                Ok((text_chain(tokens, idx, to), to))
            }
        },
    }
}

/// The kinds of token that stand for an arithmetic operator.
pub open spec fn is_operator(kind: TokenType) -> bool {
    kind == TokenType::ADD || kind == TokenType::SUB || kind == TokenType::MULT || kind
        == TokenType::DIV
}

/// The operation on two operands. The node reaches from the start of the left
/// one to the end of the right one.
pub open spec fn binary(op: TokenType, lhs: SpecNumber, rhs: SpecNumber) -> SpecNumber {
    SpecNumber {
        line: lhs.line,
        start: lhs.start,
        end: rhs.end,
        expression: match op {
            TokenType::ADD => SpecNumberKind::Add(Box::new(lhs), Box::new(rhs)),
            TokenType::SUB => SpecNumberKind::Sub(Box::new(lhs), Box::new(rhs)),
            TokenType::MULT => SpecNumberKind::Mult(Box::new(lhs), Box::new(rhs)),
            _ => SpecNumberKind::Div(Box::new(lhs), Box::new(rhs)),
        },
    }
}

/// What follows a number expression `lhs` that has been read up to `idx`.
/// While an operator stands there, it takes the next term and makes the two
/// the left operand of what follows: the chain folds from the left, in the
/// order of the source, and no operator binds tighter than another.
pub open spec fn parse_number_chain(tokens: Seq<SpecToken>, idx: int, lhs: SpecNumber) -> Result<
    (SpecNumber, int),
    Diagnostic,
>
    decreases tokens.len() - idx,
{
    match token_at(tokens, idx) {
        Err(e) => Err(e),
        Ok(t) => if !is_operator(t.token_type) {
            Ok((lhs, idx))
        } else {
            match token_at(tokens, idx + 1) {
                Err(e) => Err(e),
                Ok(term) => match number_leaf(term) {
                    Err(e) => Err(e),
                    Ok(rhs) => parse_number_chain(tokens, idx + 2, binary(t.token_type, lhs, rhs)),
                },
            }
        },
    }
}

/// A number value at `idx`: a term, then operators and terms, and the index
/// behind them.
pub open spec fn parse_number_value(tokens: Seq<SpecToken>, idx: int) -> Result<
    (SpecNumber, int),
    Diagnostic,
> {
    match token_at(tokens, idx) {
        Err(e) => Err(e),
        Ok(t) => match number_leaf(t) {
            Err(e) => Err(e),
            Ok(first) => parse_number_chain(tokens, idx + 1, first),
        },
    }
}

/// The value that a text declaration without `=` has: the empty text, at the
/// place of the keyword.
pub open spec fn default_text(keyword: SpecToken) -> SpecText {
    SpecText {
        line: keyword.line,
        start: keyword.start,
        end: keyword.end,
        expression: SpecTextKind::Value(Seq::empty()),
    }
}

/// The value that a number declaration without `=` has: zero, at the place of
/// the keyword.
pub open spec fn default_number(keyword: SpecToken) -> SpecNumber {
    SpecNumber {
        line: keyword.line,
        start: keyword.start,
        end: keyword.end,
        expression: SpecNumberKind::Value(0),
    }
}

/// The statement from the keyword `start` up to `end`.
pub open spec fn statement(keyword: SpecToken, end: int, kind: SpecStatementKind)
    -> SpecStatement {
    SpecStatement { line: keyword.line, start: keyword.start, end, expression: kind }
}

/// The statement whose keyword stands at `idx`, and the index behind it.
///
/// A declaration names its variable and then either ends, at a `NEWLINE` or at
/// `EOF`, with the default for a value, or goes on with `=` and a value.
/// `Input` and `Output` name their variable and end.
pub open spec fn parse_statement(tokens: Seq<SpecToken>, idx: int) -> Result<
    (SpecStatement, int),
    Diagnostic,
> {
    match token_at(tokens, idx) {
        Err(e) => Err(e),
        Ok(keyword) => match keyword.token_type {
            TokenType::TEXT | TokenType::ZAHL => match parse_identifier(tokens, idx + 1) {
                Err(e) => Err(e),
                Ok(name) => match token_at(tokens, idx + 2) {
                    Err(e) => Err(e),
                    Ok(t) => match t.token_type {
                        TokenType::EQUAL => if keyword.token_type == TokenType::TEXT {
                            match parse_text_value(tokens, idx + 3) {
                                Err(e) => Err(e),
                                Ok((value, next)) => Ok(
                                    (
                                        statement(
                                            keyword,
                                            value.end,
                                            SpecStatementKind::TextAssignment(name, value),
                                        ),
                                        next,
                                    ),
                                ),
                            }
                        } else {
                            match parse_number_value(tokens, idx + 3) {
                                Err(e) => Err(e),
                                Ok((value, next)) => Ok(
                                    (
                                        statement(
                                            keyword,
                                            value.end,
                                            SpecStatementKind::NumberAssignment(name, value),
                                        ),
                                        next,
                                    ),
                                ),
                            }
                        },
                        TokenType::NEWLINE | TokenType::EOF => Ok(
                            (
                                statement(
                                    keyword,
                                    keyword.end,
                                    if keyword.token_type == TokenType::TEXT {
                                        SpecStatementKind::TextAssignment(
                                            name,
                                            default_text(keyword),
                                        )
                                    } else {
                                        SpecStatementKind::NumberAssignment(
                                            name,
                                            default_number(keyword),
                                        )
                                    },
                                ),
                                idx + 2,
                            ),
                        ),
                        _ => Err(error_at(t, "Invalid Assignment"@)),
                    },
                },
            },
            TokenType::OUTPUT => match parse_identifier(tokens, idx + 1) {
                Err(e) => Err(e),
                Ok(name) => Ok(
                    (
                        statement(keyword, name.end, SpecStatementKind::OutputStatement(name)),
                        idx + 2,
                    ),
                ),
            },
            TokenType::INPUT => match parse_identifier(tokens, idx + 1) {
                Err(e) => Err(e),
                Ok(name) => Ok(
                    (
                        statement(keyword, name.end, SpecStatementKind::InputStatement(name)),
                        idx + 2,
                    ),
                ),
            },
            _ => Err(error_at(keyword, "Invalid instruction"@)),
        },
    }
}

/// A run of text pieces ends at or after its start, and within the tokens.
pub proof fn lemma_text_run_end_bounds(tokens: Seq<SpecToken>, idx: int)
    requires
        0 <= idx <= tokens.len(),
    ensures
        idx <= text_run_end(tokens, idx) <= tokens.len(),
        forall|i: int|
            idx <= i < text_run_end(tokens, idx) ==> is_text_piece(
                #[trigger] tokens[i].token_type,
            ),
    decreases tokens.len() - idx,
{
    if idx < tokens.len() && is_text_piece(tokens[idx].token_type) {
        lemma_text_run_end_bounds(tokens, idx + 1);
    }
}

/// A chain of operators and terms ends at or after its start, and within the tokens.
pub proof fn lemma_number_chain_bounds(tokens: Seq<SpecToken>, idx: int, lhs: SpecNumber)
    requires
        0 <= idx,
    ensures
        parse_number_chain(tokens, idx, lhs) matches Ok((_, next)) ==> idx <= next < tokens.len(),
    decreases tokens.len() - idx,
{
    if let Ok(t) = token_at(tokens, idx) {
        if is_operator(t.token_type) {
            if let Ok(term) = token_at(tokens, idx + 1) {
                if let Ok(rhs) = number_leaf(term) {
                    lemma_number_chain_bounds(tokens, idx + 2, binary(t.token_type, lhs, rhs));
                }
            }
        }
    }
}

/// A statement takes at least its keyword and its name, and ends within the tokens.
pub proof fn lemma_statement_bounds(tokens: Seq<SpecToken>, idx: int)
    requires
        0 <= idx,
    ensures
        parse_statement(tokens, idx) matches Ok((_, next)) ==> idx + 2 <= next <= tokens.len(),
{
    if let Ok(keyword) = token_at(tokens, idx) {
        if let Ok(name) = parse_identifier(tokens, idx + 1) {
            if let Ok(t) = token_at(tokens, idx + 2) {
                if t.token_type == TokenType::EQUAL {
                    if keyword.token_type == TokenType::TEXT {
                        lemma_text_run_end_bounds(tokens, idx + 3);
                    } else if keyword.token_type == TokenType::ZAHL {
                        if let Ok(first) = token_at(tokens, idx + 3) {
                            if let Ok(leaf) = number_leaf(first) {
                                lemma_number_chain_bounds(tokens, idx + 4, leaf);
                            }
                        }
                    }
                }
            }
        }
    }
}

/// The statement `first`, followed by what the rest of the tokens gives.
pub open spec fn followed_by(
    first: SpecStatement,
    rest: Result<Seq<SpecStatement>, Diagnostic>,
) -> Result<Seq<SpecStatement>, Diagnostic> {
    match rest {
        Ok(more) => Ok(seq![first] + more),
        Err(e) => Err(e),
    }
}

/// The statements of the tokens from `idx` on: `NEWLINE` tokens are passed
/// over, `EOF` or the end of the tokens stops, and any other token starts a
/// statement.
pub open spec fn parse_from(tokens: Seq<SpecToken>, idx: int) -> Result<
    Seq<SpecStatement>,
    Diagnostic,
>
    decreases tokens.len() - idx,
{
    if idx < 0 || idx >= tokens.len() {
        Ok(Seq::empty())
    } else if tokens[idx].token_type == TokenType::NEWLINE {
        parse_from(tokens, idx + 1)
    } else if tokens[idx].token_type == TokenType::EOF {
        Ok(Seq::empty())
    } else {
        match parse_statement(tokens, idx) {
            Err(e) => Err(e),
            Ok((first, next)) => {
                proof {
                    lemma_statement_bounds(tokens, idx);
                }
                followed_by(first, parse_from(tokens, next))
            },
        }
    }
}

/// The statements of a sequence of tokens, or the first error in it.
pub open spec fn parse_spec(tokens: Seq<SpecToken>) -> Result<Seq<SpecStatement>, Diagnostic> {
    parse_from(tokens, 0)
}

} // verus!
