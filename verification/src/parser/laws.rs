//! What holds of the statements of every sequence of tokens.

use crate::error::Diagnostic;
use crate::lexer::tokens::{SpecToken, TokenType};
use crate::parser::expressions::{
    number_leaf, text_leaf, SpecNumber, SpecNumberKind, SpecStatement, SpecStatementKind,
    SpecText, SpecTextKind,
};
use crate::parser::grammar::{
    binary, is_operator, is_text_piece, lemma_statement_bounds, lemma_text_run_end_bounds,
    parse_from, parse_identifier, parse_number_chain, parse_number_value, parse_spec,
    parse_statement, parse_text_value, text_chain, text_run_end, token_at,
};
use vstd::prelude::*;

verus! {

/// Whether a number expression is a literal or a variable reference.
pub open spec fn is_number_leaf(e: SpecNumber) -> bool {
    e.expression is Value || e.expression is Identifier
}

/// Whether a text expression is a literal or a variable reference.
pub open spec fn is_text_leaf(e: SpecText) -> bool {
    e.expression is Value || e.expression is Identifier
}

/// Whether a number expression is a chain folded from the left: the right
/// operand of every operation is a leaf, so that the operations apply in the
/// order in which they were written, whatever the operators are.
pub open spec fn folds_left(e: SpecNumber) -> bool
    decreases e,
{
    match e.expression {
        SpecNumberKind::Value(_) => true,
        SpecNumberKind::Identifier(_) => true,
        SpecNumberKind::Add(a, b) => is_number_leaf(*b) && folds_left(*a),
        SpecNumberKind::Sub(a, b) => is_number_leaf(*b) && folds_left(*a),
        SpecNumberKind::Mult(a, b) => is_number_leaf(*b) && folds_left(*a),
        SpecNumberKind::Div(a, b) => is_number_leaf(*b) && folds_left(*a),
    }
}

/// Whether a text expression is a run folded from the right: the left side of
/// every concatenation is a leaf.
pub open spec fn folds_right(e: SpecText) -> bool
    decreases e,
{
    match e.expression {
        SpecTextKind::Value(_) => true,
        SpecTextKind::Identifier(_) => true,
        SpecTextKind::Concat(a, b) => is_text_leaf(*a) && folds_right(*b),
    }
}

/// Whether the value of a statement, if it has one, is folded as its kind asks.
pub open spec fn value_is_folded(statement: SpecStatement) -> bool {
    match statement.expression {
        SpecStatementKind::TextAssignment(_, value) => folds_right(value),
        SpecStatementKind::NumberAssignment(_, value) => folds_left(value),
        SpecStatementKind::InputStatement(_) => true,
        SpecStatementKind::OutputStatement(_) => true,
    }
}

/// A leaf made of a token is a leaf, at the place of the token.
proof fn lemma_leaves(t: SpecToken)
    ensures
        number_leaf(t) matches Ok(e) ==> is_number_leaf(e) && e.line == t.line && e.start
            == t.start && e.end == t.end,
        text_leaf(t) matches Ok(e) ==> is_text_leaf(e) && e.line == t.line && e.start == t.start
            && e.end == t.end,
        is_text_piece(t.token_type) <==> text_leaf(t) is Ok,
{
}

proof fn lemma_number_chain_shape(tokens: Seq<SpecToken>, idx: int, lhs: SpecNumber)
    requires
        1 <= idx,
        folds_left(lhs),
        idx <= tokens.len() ==> lhs.end == tokens[idx - 1].end,
    ensures
        parse_number_chain(tokens, idx, lhs) matches Ok((e, next)) ==> {
            &&& idx <= next < tokens.len()
            &&& folds_left(e)
            &&& e.line == lhs.line
            &&& e.start == lhs.start
            &&& e.end == tokens[next - 1].end
        },
    decreases tokens.len() - idx,
{
    if let Ok(t) = token_at(tokens, idx) {
        if is_operator(t.token_type) {
            if let Ok(term) = token_at(tokens, idx + 1) {
                lemma_leaves(term);
                if let Ok(rhs) = number_leaf(term) {
                    lemma_number_chain_shape(tokens, idx + 2, binary(t.token_type, lhs, rhs));
                }
            }
        }
    }
}

/// A number value reaches from the start of its first token to the end of its
/// last, on the line of the first, and it is folded from the left: in
/// `2 + 3 * 4` the sum is the left operand of the product.
pub proof fn law_number_value_shape(tokens: Seq<SpecToken>, idx: int)
    requires
        0 <= idx,
    ensures
        parse_number_value(tokens, idx) matches Ok((e, next)) ==> {
            &&& idx < next < tokens.len()
            &&& folds_left(e)
            &&& e.line == tokens[idx].line
            &&& e.start == tokens[idx].start
            &&& e.end == tokens[next - 1].end
        },
{
    if let Ok(t) = token_at(tokens, idx) {
        lemma_leaves(t);
        if let Ok(first) = number_leaf(t) {
            lemma_number_chain_shape(tokens, idx + 1, first);
        }
    }
}

proof fn lemma_text_chain_shape(tokens: Seq<SpecToken>, from: int, to: int)
    requires
        0 <= from < to <= tokens.len(),
        forall|i: int| from <= i < to ==> is_text_piece(#[trigger] tokens[i].token_type),
    ensures
        folds_right(text_chain(tokens, from, to)),
        text_chain(tokens, from, to).line == tokens[from].line,
        text_chain(tokens, from, to).start == tokens[from].start,
        text_chain(tokens, from, to).end == tokens[to - 1].end,
        to - from == 1 ==> is_text_leaf(text_chain(tokens, from, to)),
    decreases to - from,
{
    lemma_leaves(tokens[from]);
    assert(is_text_piece(tokens[from].token_type));
    if to - from > 1 {
        lemma_text_chain_shape(tokens, from + 1, to);
    }
}

/// A text value reaches from the start of its first token to the end of its
/// last, on the line of the first. It takes every value and identifier token
/// up to the first token of another kind, and it is folded from the right.
pub proof fn law_text_value_shape(tokens: Seq<SpecToken>, idx: int)
    requires
        0 <= idx,
    ensures
        parse_text_value(tokens, idx) matches Ok((e, next)) ==> {
            &&& idx < next <= tokens.len()
            &&& next == text_run_end(tokens, idx)
            &&& folds_right(e)
            &&& e.line == tokens[idx].line
            &&& e.start == tokens[idx].start
            &&& e.end == tokens[next - 1].end
        },
{
    if idx < tokens.len() {
        lemma_text_run_end_bounds(tokens, idx);
        let to = text_run_end(tokens, idx);
        if to > idx {
            lemma_text_chain_shape(tokens, idx, to);
        }
    }
}

/// A statement starts where its keyword starts, on the line of the keyword.
/// One with a value ends where its last token ends, `Input` and `Output` end
/// with their name, and a declaration without a value ends with its keyword.
/// Its value is folded as its kind asks.
pub proof fn law_statement_shape(tokens: Seq<SpecToken>, idx: int)
    requires
        0 <= idx,
    ensures
        parse_statement(tokens, idx) matches Ok((statement, next)) ==> {
            &&& idx + 2 <= next <= tokens.len()
            &&& statement.line == tokens[idx].line
            &&& statement.start == tokens[idx].start
            &&& statement.end == tokens[next - 1].end || (next == idx + 2 && statement.end
                == tokens[idx].end)
            &&& value_is_folded(statement)
        },
{
    lemma_statement_bounds(tokens, idx);
    law_number_value_shape(tokens, idx + 3);
    law_text_value_shape(tokens, idx + 3);
}

/// Whether a diagnostic covers the range of a token, on its line.
pub open spec fn covers(t: SpecToken, d: Diagnostic) -> bool {
    d.line == t.line && d.start == t.start && d.end == t.end
}

/// Whether a diagnostic points at one of the tokens.
pub open spec fn points_at_token(tokens: Seq<SpecToken>, d: Diagnostic) -> bool {
    exists|i: int| 0 <= i < tokens.len() && covers(#[trigger] tokens[i], d)
}

proof fn lemma_token_at_error(tokens: Seq<SpecToken>, idx: int)
    requires
        tokens.len() > 0,
    ensures
        token_at(tokens, idx) matches Err(d) ==> points_at_token(tokens, d),
        token_at(tokens, idx) matches Ok(t) ==> t == tokens[idx] && 0 <= idx < tokens.len(),
{
    if let Err(d) = token_at(tokens, idx) {
        assert(covers(tokens[tokens.len() - 1], d));
    }
}

proof fn lemma_number_chain_error(tokens: Seq<SpecToken>, idx: int, lhs: SpecNumber)
    requires
        tokens.len() > 0,
        0 <= idx,
    ensures
        parse_number_chain(tokens, idx, lhs) matches Err(d) ==> points_at_token(tokens, d),
    decreases tokens.len() - idx,
{
    lemma_token_at_error(tokens, idx);
    if let Ok(t) = token_at(tokens, idx) {
        if is_operator(t.token_type) {
            lemma_token_at_error(tokens, idx + 1);
            if let Ok(term) = token_at(tokens, idx + 1) {
                match number_leaf(term) {
                    Ok(rhs) => {
                        lemma_number_chain_error(tokens, idx + 2, binary(t.token_type, lhs, rhs));
                    },
                    Err(d) => {
                        assert(covers(tokens[idx + 1], d));
                    },
                }
            }
        }
    }
}

/// A statement that fails to parse fails at a token: the error covers the
/// range of one of the tokens, on the line of that token.
pub proof fn law_statement_error_at_token(tokens: Seq<SpecToken>, idx: int)
    requires
        0 <= idx < tokens.len(),
    ensures
        parse_statement(tokens, idx) matches Err(d) ==> points_at_token(tokens, d),
{
    lemma_token_at_error(tokens, idx);
    lemma_token_at_error(tokens, idx + 1);
    lemma_token_at_error(tokens, idx + 2);
    lemma_token_at_error(tokens, idx + 3);
    if let Err(d) = parse_statement(tokens, idx) {
        let keyword = tokens[idx];
        if keyword.token_type == TokenType::TEXT || keyword.token_type == TokenType::ZAHL {
            match parse_identifier(tokens, idx + 1) {
                Err(e) => {
                    if let Ok(t) = token_at(tokens, idx + 1) {
                        assert(covers(tokens[idx + 1], d));
                    }
                },
                Ok(_) => {
                    if let Ok(t) = token_at(tokens, idx + 2) {
                        if t.token_type == TokenType::EQUAL {
                            if keyword.token_type == TokenType::TEXT {
                                if let Ok(first) = token_at(tokens, idx + 3) {
                                    assert(covers(tokens[idx + 3], d));
                                }
                            } else {
                                if let Ok(first) = token_at(tokens, idx + 3) {
                                    match number_leaf(first) {
                                        Ok(leaf) => {
                                            lemma_number_chain_error(tokens, idx + 4, leaf);
                                        },
                                        Err(_) => {
                                            assert(covers(tokens[idx + 3], d));
                                        },
                                    }
                                }
                            }
                        } else {
                            assert(covers(tokens[idx + 2], d));
                        }
                    }
                },
            }
        } else if keyword.token_type == TokenType::OUTPUT || keyword.token_type
            == TokenType::INPUT {
            if let Ok(t) = token_at(tokens, idx + 1) {
                assert(covers(tokens[idx + 1], d));
            }
        } else {
            assert(covers(tokens[idx], d));
        }
    }
}

/// A sequence of tokens that fails to parse fails at a token.
pub proof fn law_parse_error_at_token(tokens: Seq<SpecToken>)
    ensures
        parse_spec(tokens) matches Err(d) ==> points_at_token(tokens, d),
{
    lemma_parse_error_from(tokens, 0);
}

proof fn lemma_parse_error_from(tokens: Seq<SpecToken>, idx: int)
    requires
        0 <= idx,
    ensures
        parse_from(tokens, idx) matches Err(d) ==> points_at_token(tokens, d),
    decreases tokens.len() - idx,
{
    if idx < tokens.len() {
        if tokens[idx].token_type == TokenType::NEWLINE {
            lemma_parse_error_from(tokens, idx + 1);
        } else if tokens[idx].token_type != TokenType::EOF {
            law_statement_error_at_token(tokens, idx);
            lemma_statement_bounds(tokens, idx);
            if let Ok((_, next)) = parse_statement(tokens, idx) {
                lemma_parse_error_from(tokens, next);
            }
        }
    }
}

/// Every statement that is parsed has its value folded as its kind asks: a
/// number value from the left, a text value from the right.
pub proof fn law_values_are_folded(tokens: Seq<SpecToken>)
    ensures
        parse_spec(tokens) matches Ok(statements) ==> forall|i: int|
            0 <= i < statements.len() ==> value_is_folded(#[trigger] statements[i]),
{
    lemma_values_are_folded_from(tokens, 0);
}

proof fn lemma_values_are_folded_from(tokens: Seq<SpecToken>, idx: int)
    requires
        0 <= idx,
    ensures
        parse_from(tokens, idx) matches Ok(statements) ==> forall|i: int|
            0 <= i < statements.len() ==> value_is_folded(#[trigger] statements[i]),
    decreases tokens.len() - idx,
{
    if idx < tokens.len() {
        if tokens[idx].token_type == TokenType::NEWLINE {
            lemma_values_are_folded_from(tokens, idx + 1);
        } else if tokens[idx].token_type != TokenType::EOF {
            law_statement_shape(tokens, idx);
            if let Ok((first, next)) = parse_statement(tokens, idx) {
                lemma_values_are_folded_from(tokens, next);
                if let Ok(more) = parse_from(tokens, next) {
                    let all = seq![first] + more;
                    assert forall|i: int| 0 <= i < all.len() implies value_is_folded(
                        #[trigger] all[i],
                    ) by {
                        if i > 0 {
                            assert(all[i] == more[i - 1]);
                        }
                    }
                }
            }
        }
    }
}

} // verus!
