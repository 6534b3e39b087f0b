//! The lexer and the parser agree on what a line holds: the tokens of a line
//! that lexes are one statement, which the parser reads up to the token that
//! ends the line, unless the name of the statement is missing or its value is
//! malformed.

use crate::error::Diagnostic;
use crate::lexer::grammar::{
    keyword_kind, lemma_run_end_bounds, lemma_run_end_maximal, lex_line, lex_number,
    lex_operator, lex_reference, lex_text, operator_kind, run_end, statement_head, token,
    CharClass,
};
use crate::lexer::tokens::{SpecToken, TokenType};
use crate::parser::expressions::{number_leaf, SpecNumber};
use crate::parser::grammar::{
    binary, is_operator, is_text_piece, parse_number_chain, parse_statement, text_run_end,
};
use crate::parser::laws::covers;
use crate::text::{is_digit, text_of, Classified};
use vstd::prelude::*;

verus! {

/// Whether a token ends a line of tokens.
pub open spec fn ends_line(t: SpecToken) -> bool {
    t.token_type == TokenType::NEWLINE || t.token_type == TokenType::EOF
}

/// Whether an error says that the value of a declaration is malformed: that it
/// is missing, that a term is missing behind an operator, or that a literal
/// does not fit a signed 64-bit number.
pub open spec fn is_value_error(d: Diagnostic) -> bool {
    d.msg == "Expected string value"@ || d.msg == "Could not parse number"@ || d.msg
        == "Error while parsing value!"@
}

/// Whether a value was parsed up to the last of the tokens, or failed as a
/// malformed value.
pub open spec fn read_to_end<T>(tokens: Seq<SpecToken>, parsed: Result<(T, int), Diagnostic>)
    -> bool {
    match parsed {
        Ok((_, next)) => next == tokens.len() - 1,
        Err(d) => is_value_error(d),
    }
}

/// The tokens of a number value, behind some tokens and in front of the token
/// that ends the line, are parsed to the end of the line. Without `term`, the
/// value stands where an operator is due, behind the expression `lhs`. With
/// `term`, it stands where a term is due: behind the operator `op` and the
/// expression `lhs`, or, if `op` is no operator, at the start of the chain.
proof fn lemma_number_is_parsed(
    src: Seq<Classified>,
    pos: int,
    eol: int,
    line: int,
    before: Seq<SpecToken>,
    end: SpecToken,
    term: bool,
    lhs: SpecNumber,
    op: TokenType,
)
    requires
        ends_line(end),
        before.len() > 0,
        term ==> lex_number(src, pos, eol, line) is Ok,
        !term ==> lex_operator(src, pos, eol, line) is Ok,
    ensures
        !term ==> read_to_end(
            before + lex_operator(src, pos, eol, line)->Ok_0.push(end),
            parse_number_chain(
                before + lex_operator(src, pos, eol, line)->Ok_0.push(end),
                before.len() as int,
                lhs,
            ),
        ),
        term ==> ({
            let all = before + lex_number(src, pos, eol, line)->Ok_0.push(end);
            match number_leaf(all[before.len() as int]) {
                Err(d) => is_value_error(d),
                Ok(leaf) => read_to_end(
                    all,
                    parse_number_chain(
                        all,
                        before.len() as int + 1,
                        if is_operator(op) {
                            binary(op, lhs, leaf)
                        } else {
                            leaf
                        },
                    ),
                ),
            }
        }),
    decreases eol - pos,
{
    let p = run_end(src, pos, eol, CharClass::Blank);
    lemma_run_end_bounds(src, pos, eol, CharClass::Blank);
    let i = before.len() as int;
    if term {
        let rest = lex_number(src, pos, eol, line)->Ok_0;
        let all = before + rest.push(end);
        if p >= eol {
            assert(all[i] == end);
        } else if is_digit(src[p].c) {
            let e = run_end(src, p, eol, CharClass::Digit);
            lemma_run_end_bounds(src, p, eol, CharClass::Digit);
            let first = token(src, line, p, e, TokenType::VALUE);
            let more = lex_operator(src, e, eol, line)->Ok_0;
            assert(rest == seq![first] + more);
            assert(all[i] == first);
            assert(all =~= before.push(first) + more.push(end));
            if let Ok(leaf) = number_leaf(first) {
                lemma_number_is_parsed(
                    src,
                    e,
                    eol,
                    line,
                    before.push(first),
                    end,
                    false,
                    if is_operator(op) {
                        binary(op, lhs, leaf)
                    } else {
                        leaf
                    },
                    op,
                );
            }
        } else {
            let (name, next) = lex_reference(src, p, eol, line)->Ok_0;
            lemma_run_end_bounds(src, p + 1, eol, CharClass::Name);
            let more = lex_operator(src, next, eol, line)->Ok_0;
            assert(rest == seq![name] + more);
            assert(all[i] == name);
            assert(all =~= before.push(name) + more.push(end));
            let leaf = number_leaf(name)->Ok_0;
            lemma_number_is_parsed(
                src,
                next,
                eol,
                line,
                before.push(name),
                end,
                false,
                if is_operator(op) {
                    binary(op, lhs, leaf)
                } else {
                    leaf
                },
                op,
            );
        }
    } else {
        let rest = lex_operator(src, pos, eol, line)->Ok_0;
        let all = before + rest.push(end);
        if p >= eol {
            assert(all[i] == end);
        } else {
            let kind = operator_kind(src[p].c)->Some_0;
            let sign = token(src, line, p, p + 1, kind);
            let more = lex_number(src, p + 1, eol, line)->Ok_0;
            assert(rest == seq![sign] + more);
            assert(all[i] == sign);
            assert(all =~= before.push(sign) + more.push(end));
            assert(is_operator(kind));
            lemma_number_is_parsed(src, p + 1, eol, line, before.push(sign), end, true, lhs, kind);
            assert(all[i + 1] == (before.push(sign) + more.push(end))[i + 1]);
        }
    }
}

/// The tokens of a text value are values and identifiers.
proof fn lemma_text_is_pieces(src: Seq<Classified>, pos: int, eol: int, line: int)
    ensures
        lex_text(src, pos, eol, line) matches Ok(tokens) ==> forall|i: int|
            0 <= i < tokens.len() ==> is_text_piece(#[trigger] tokens[i].token_type),
    decreases eol - pos,
{
    let p = run_end(src, pos, eol, CharClass::Blank);
    lemma_run_end_bounds(src, pos, eol, CharClass::Blank);
    lemma_run_end_maximal(src, pos, eol, CharClass::Blank);
    if p < eol {
        let e = run_end(src, p, eol, CharClass::Plain);
        lemma_run_end_bounds(src, p, eol, CharClass::Plain);
        if e < eol && src[e].c == '$' {
            if e + 1 < eol && src[e + 1].c == '$' {
                lemma_text_is_pieces(src, e + 2, eol, line);
                if let Ok(more) = lex_text(src, e + 2, eol, line) {
                    let first = seq![token(src, line, p, e + 1, TokenType::VALUE)];
                    assert forall|i: int| 0 <= i < (first + more).len() implies is_text_piece(
                        #[trigger] (first + more)[i].token_type,
                    ) by {
                        if i > 0 {
                            assert((first + more)[i] == more[i - 1]);
                        }
                    }
                }
            } else if let Ok((name, next)) = lex_reference(src, e, eol, line) {
                lemma_run_end_bounds(src, e + 1, eol, CharClass::Name);
                lemma_text_is_pieces(src, next, eol, line);
                if let Ok(more) = lex_text(src, next, eol, line) {
                    let word = if p < e {
                        seq![token(src, line, p, e, TokenType::VALUE)]
                    } else {
                        Seq::<SpecToken>::empty()
                    };
                    let first = word.push(name);
                    assert forall|i: int| 0 <= i < (first + more).len() implies is_text_piece(
                        #[trigger] (first + more)[i].token_type,
                    ) by {
                        if i >= first.len() {
                            assert((first + more)[i] == more[i - first.len()]);
                        }
                    }
                }
            }
        } else {
            lemma_text_is_pieces(src, e, eol, line);
            if let Ok(more) = lex_text(src, e, eol, line) {
                let first = seq![token(src, line, p, e, TokenType::VALUE)];
                assert forall|i: int| 0 <= i < (first + more).len() implies is_text_piece(
                    #[trigger] (first + more)[i].token_type,
                ) by {
                    if i > 0 {
                        assert((first + more)[i] == more[i - 1]);
                    }
                }
            }
        }
    }
}

/// A run of values and identifiers ends where the first other token stands.
proof fn lemma_text_run_reaches(tokens: Seq<SpecToken>, from: int, to: int)
    requires
        0 <= from <= to < tokens.len(),
        forall|i: int| from <= i < to ==> is_text_piece(#[trigger] tokens[i].token_type),
        !is_text_piece(tokens[to].token_type),
    ensures
        text_run_end(tokens, from) == to,
    decreases to - from,
{
    if from < to {
        assert(is_text_piece(tokens[from].token_type));
        lemma_text_run_reaches(tokens, from + 1, to);
    }
}

/// Whether the tokens of a line name a variable behind their keyword.
pub open spec fn has_name(tokens: Seq<SpecToken>) -> bool {
    tokens.len() >= 2 && tokens[1].token_type == TokenType::IDENTIFIER
}

/// The tokens of a line that lexes, if there are any, are one statement. In
/// front of a token that ends the line, the parser reads them as a statement
/// up to that token, or fails because the value of the statement is
/// malformed; it does not fail for a malformed assignment, and it does not run
/// out of tokens. That is so where the line names a variable, and the name is
/// not empty then. Where it names none, the parser fails at the token behind
/// the keyword, for want of an identifier.
pub proof fn law_line_is_one_statement(
    src: Seq<Classified>,
    from: int,
    eol: int,
    line: int,
    end: SpecToken,
)
    requires
        0 <= from <= eol <= src.len(),
        ends_line(end),
        lex_line(src, from, eol, line) matches Ok(tokens) && tokens.len() > 0,
    ensures
        ({
            let tokens = lex_line(src, from, eol, line)->Ok_0;
            let all = tokens.push(end);
            if has_name(tokens) {
                &&& tokens[1].value.len() > 0
                &&& read_to_end(all, parse_statement(all, 0))
            } else {
                parse_statement(all, 0) matches Err(d) && d.msg == "Expected identifier"@
                    && covers(all[1], d)
            }
        }),
{
    let tokens = lex_line(src, from, eol, line)->Ok_0;
    let all = tokens.push(end);
    let s = run_end(src, from, eol, CharClass::Blank);
    lemma_run_end_bounds(src, from, eol, CharClass::Blank);
    let w = run_end(src, s, eol, CharClass::Word);
    lemma_run_end_bounds(src, s, eol, CharClass::Word);
    let kind = keyword_kind(text_of(src).subrange(s, w))->Some_0;
    let n = run_end(src, w, eol, CharClass::Blank);
    lemma_run_end_bounds(src, w, eol, CharClass::Blank);
    let m = run_end(src, n, eol, CharClass::Name);
    lemma_run_end_bounds(src, n, eol, CharClass::Name);
    let head = statement_head(src, line, s, w, kind, n, m);
    let a = run_end(src, m, eol, CharClass::Blank);
    if a >= eol {
        assert(tokens == head);
        if n < m {
            assert(all[0] == head[0] && all[1] == head[1] && all[2] == end);
        } else {
            assert(all[0] == head[0] && all[1] == end);
        }
    } else {
        let opened = head.push(token(src, line, a, a + 1, TokenType::EQUAL));
        let value = if kind == TokenType::ZAHL {
            lex_number(src, a + 1, eol, line)->Ok_0
        } else {
            lex_text(src, a + 1, eol, line)->Ok_0
        };
        assert(tokens == opened + value);
        assert(all =~= opened + value.push(end));
        assert(all[0] == opened[0] && all[1] == opened[1]);
        if n < m {
            assert(all[2] == opened[2]);
            if kind == TokenType::ZAHL {
                lemma_number_is_parsed(
                    src,
                    a + 1,
                    eol,
                    line,
                    opened,
                    end,
                    true,
                    arbitrary(),
                    TokenType::EOF,
                );
            } else {
                lemma_text_is_pieces(src, a + 1, eol, line);
                assert forall|i: int| 3 <= i < all.len() - 1 implies is_text_piece(
                    #[trigger] all[i].token_type,
                ) by {
                    assert(all[i] == value[i - 3]);
                }
                assert(all[all.len() - 1] == end);
                lemma_text_run_reaches(all, 3, all.len() - 1);
            }
        }
    }
}

} // verus!
