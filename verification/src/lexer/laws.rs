//! What holds of the tokens of every source text.

use crate::error::Diagnostic;
use crate::lexer::grammar::{
    after, keyword_kind, lemma_run_end_bounds, lemma_run_end_maximal, lex_line, lex_lines,
    lex_number, lex_operator, lex_reference, lex_spec, lex_text, operator_kind, run_end,
    statement_head, token, CharClass,
};
use crate::lexer::tokens::{SpecToken, TokenType};
use crate::text::{text_of, Classified};
use vstd::prelude::*;

verus! {

/// The number of line terminators before an offset.
pub open spec fn newlines_before(src: Seq<Classified>, pos: int) -> int
    decreases pos,
{
    if pos <= 0 {
        0
    } else {
        newlines_before(src, pos - 1) + if src[pos - 1].c == '\n' {
            1int
        } else {
            0int
        }
    }
}

/// Whether a token lies in the source: it covers a range of characters, holds
/// those characters, and its line is the number of line terminators before it,
/// counted from one.
pub open spec fn in_source(src: Seq<Classified>, t: SpecToken) -> bool {
    &&& 0 <= t.start <= t.end <= src.len()
    &&& t.value == text_of(src).subrange(t.start, t.end)
    &&& t.line == newlines_before(src, t.start) + 1
}

/// Whether a diagnostic points into the source: it covers a range of
/// characters, and its line is the number of line terminators before it,
/// counted from one.
pub open spec fn error_in_source(src: Seq<Classified>, d: Diagnostic) -> bool {
    &&& 0 <= d.start <= d.end <= src.len()
    &&& d.line == newlines_before(src, d.start) + 1
}

/// Whether a diagnostic points into the stretch `lo..hi` of line `line`.
pub open spec fn points_into(d: Diagnostic, lo: int, hi: int, line: int) -> bool {
    lo <= d.start <= d.end <= hi && d.line == line
}

/// Whether tokens come in the order of the source: none starts before the one
/// in front of it ends, and none is on an earlier line.
pub open spec fn in_order(tokens: Seq<SpecToken>) -> bool {
    forall|i: int, j: int|
        0 <= i < j < tokens.len() ==> (#[trigger] tokens[i]).end <= (#[trigger] tokens[j]).start
            && tokens[i].line <= tokens[j].line
}

/// The kinds of token that open a statement.
pub open spec fn is_keyword(kind: TokenType) -> bool {
    kind == TokenType::TEXT || kind == TokenType::ZAHL || kind == TokenType::INPUT || kind
        == TokenType::OUTPUT
}

/// The kinds of token that stand in a statement behind its keyword.
pub open spec fn is_inner(kind: TokenType) -> bool {
    !is_keyword(kind) && kind != TokenType::NEWLINE && kind != TokenType::EOF
}

/// Whether the token at index `i`, if it opens a statement, follows a `NEWLINE`.
pub open spec fn follows_newline(tokens: Seq<SpecToken>, i: int) -> bool {
    is_keyword(tokens[i].token_type) ==> tokens[i - 1].token_type == TokenType::NEWLINE
}

/// Whether `NEWLINE` tokens delimit the statements: a keyword is the first
/// token or follows a `NEWLINE`.
pub open spec fn delimited(tokens: Seq<SpecToken>) -> bool {
    forall|i: int| 0 < i < tokens.len() ==> #[trigger] follows_newline(tokens, i)
}

/// What the tokens of every source text are like: each lies in the source,
/// they come in the order of the source, `NEWLINE` tokens delimit the
/// statements, and the last token, and no other, is the `EOF` token.
pub open spec fn well_formed(src: Seq<Classified>, tokens: Seq<SpecToken>) -> bool {
    &&& tokens.len() > 0
    &&& tokens.last().token_type == TokenType::EOF
    &&& forall|i: int|
        0 <= i < tokens.len() - 1 ==> (#[trigger] tokens[i]).token_type != TokenType::EOF
    &&& forall|i: int| 0 <= i < tokens.len() ==> in_source(src, #[trigger] tokens[i])
    &&& in_order(tokens)
    &&& delimited(tokens)
}

/// Whether tokens are tokens of the stretch `lo..hi` of line `line`: each lies
/// in it and holds its characters, none but the first opens a statement, and
/// none starts before the one in front of it ends. With `inner`, the first
/// opens no statement either.
pub open spec fn in_line(
    src: Seq<Classified>,
    tokens: Seq<SpecToken>,
    lo: int,
    hi: int,
    line: int,
    inner: bool,
) -> bool {
    &&& forall|i: int|
        0 <= i < tokens.len() ==> {
            &&& lo <= (#[trigger] tokens[i]).start <= tokens[i].end <= hi
            &&& tokens[i].value == text_of(src).subrange(tokens[i].start, tokens[i].end)
            &&& tokens[i].line == line
            &&& if i > 0 || inner {
                is_inner(tokens[i].token_type)
            } else {
                is_inner(tokens[i].token_type) || is_keyword(tokens[i].token_type)
            }
        }
    &&& forall|i: int, j: int|
        0 <= i < j < tokens.len() ==> (#[trigger] tokens[i]).end <= (#[trigger] tokens[j]).start
}

/// Tokens of one stretch followed by tokens of the next are tokens of both.
proof fn lemma_in_line_append(
    src: Seq<Classified>,
    first: Seq<SpecToken>,
    rest: Result<Seq<SpecToken>, Diagnostic>,
    lo: int,
    mid: int,
    hi: int,
    line: int,
    inner: bool,
)
    requires
        lo <= mid <= hi,
        in_line(src, first, lo, mid, line, inner),
        rest matches Ok(more) ==> in_line(src, more, mid, hi, line, true),
    ensures
        after(first, rest) matches Ok(all) ==> in_line(src, all, lo, hi, line, inner),
{
    if let Ok(more) = rest {
        let all = first + more;
        assert forall|i: int| 0 <= i < all.len() implies {
            &&& lo <= (#[trigger] all[i]).start <= all[i].end <= hi
            &&& all[i].value == text_of(src).subrange(all[i].start, all[i].end)
            &&& all[i].line == line
            &&& if i > 0 || inner {
                is_inner(all[i].token_type)
            } else {
                is_inner(all[i].token_type) || is_keyword(all[i].token_type)
            }
        } by {
            if i < first.len() {
                assert(all[i] == first[i]);
            } else {
                assert(all[i] == more[i - first.len()]);
            }
        }
        assert forall|i: int, j: int| 0 <= i < j < all.len() implies (#[trigger] all[i]).end <= (
        #[trigger] all[j]).start by {
            if j < first.len() {
                assert(all[i] == first[i] && all[j] == first[j]);
            } else if i < first.len() {
                assert(all[i] == first[i] && all[j] == more[j - first.len()]);
            } else {
                assert(all[i] == more[i - first.len()] && all[j] == more[j - first.len()]);
            }
        }
    }
}

/// The token of a variable reference lies between its first `$` and the
/// offset behind its last.
proof fn lemma_reference_in_line(src: Seq<Classified>, open: int, eol: int, line: int)
    requires
        0 <= open < eol <= src.len(),
    ensures
        lex_reference(src, open, eol, line) matches Ok((name, next)) ==> open < next <= eol
            && in_line(src, seq![name], open, next, line, true),
        lex_reference(src, open, eol, line) matches Err(d) ==> points_into(d, open, eol, line),
{
    lemma_run_end_bounds(src, open + 1, eol, CharClass::Name);
}

/// The tokens of a number value lie in the rest of the line that they were read from.
proof fn lemma_number_in_line(src: Seq<Classified>, from: int, eol: int, line: int, term: bool)
    requires
        0 <= from <= eol <= src.len(),
    ensures
        term ==> (lex_number(src, from, eol, line) matches Ok(tokens) ==> in_line(
            src,
            tokens,
            from,
            eol,
            line,
            true,
        )),
        !term ==> (lex_operator(src, from, eol, line) matches Ok(tokens) ==> in_line(
            src,
            tokens,
            from,
            eol,
            line,
            true,
        )),
        term ==> (lex_number(src, from, eol, line) matches Err(d) ==> points_into(
            d,
            from,
            eol,
            line,
        )),
        !term ==> (lex_operator(src, from, eol, line) matches Err(d) ==> points_into(
            d,
            from,
            eol,
            line,
        )),
    decreases eol - from,
{
    let p = run_end(src, from, eol, CharClass::Blank);
    lemma_run_end_bounds(src, from, eol, CharClass::Blank);
    if p < eol {
        if term {
            if crate::text::is_digit(src[p].c) {
                let e = run_end(src, p, eol, CharClass::Digit);
                lemma_run_end_bounds(src, p, eol, CharClass::Digit);
                lemma_number_in_line(src, e, eol, line, false);
                lemma_in_line_append(
                    src,
                    seq![token(src, line, p, e, TokenType::VALUE)],
                    lex_operator(src, e, eol, line),
                    from,
                    e,
                    eol,
                    line,
                    true,
                );
            } else if src[p].c == '$' {
                lemma_reference_in_line(src, p, eol, line);
                if let Ok((name, next)) = lex_reference(src, p, eol, line) {
                    lemma_number_in_line(src, next, eol, line, false);
                    lemma_in_line_append(
                        src,
                        seq![name],
                        lex_operator(src, next, eol, line),
                        from,
                        next,
                        eol,
                        line,
                        true,
                    );
                }
            }
        } else {
            if let Some(kind) = operator_kind(src[p].c) {
                lemma_number_in_line(src, p + 1, eol, line, true);
                lemma_in_line_append(
                    src,
                    seq![token(src, line, p, p + 1, kind)],
                    lex_number(src, p + 1, eol, line),
                    from,
                    p + 1,
                    eol,
                    line,
                    true,
                );
            }
        }
    }
}

/// The tokens of a text value lie in the rest of the line that they were read from.
proof fn lemma_text_in_line(src: Seq<Classified>, from: int, eol: int, line: int)
    requires
        0 <= from <= eol <= src.len(),
    ensures
        lex_text(src, from, eol, line) matches Ok(tokens) ==> in_line(
            src,
            tokens,
            from,
            eol,
            line,
            true,
        ),
        lex_text(src, from, eol, line) matches Err(d) ==> points_into(d, from, eol, line),
    decreases eol - from,
{
    let p = run_end(src, from, eol, CharClass::Blank);
    lemma_run_end_bounds(src, from, eol, CharClass::Blank);
    lemma_run_end_maximal(src, from, eol, CharClass::Blank);
    if p < eol {
        let e = run_end(src, p, eol, CharClass::Plain);
        lemma_run_end_bounds(src, p, eol, CharClass::Plain);
        if e < eol && src[e].c == '$' {
            if e + 1 < eol && src[e + 1].c == '$' {
                lemma_text_in_line(src, e + 2, eol, line);
                lemma_in_line_append(
                    src,
                    seq![token(src, line, p, e + 1, TokenType::VALUE)],
                    lex_text(src, e + 2, eol, line),
                    from,
                    e + 2,
                    eol,
                    line,
                    true,
                );
            } else {
                lemma_reference_in_line(src, e, eol, line);
                if let Ok((name, next)) = lex_reference(src, e, eol, line) {
                    let word = if p < e {
                        seq![token(src, line, p, e, TokenType::VALUE)]
                    } else {
                        Seq::<SpecToken>::empty()
                    };
                    lemma_in_line_append(src, word, Ok(seq![name]), from, e, next, line, true);
                    assert(word + seq![name] =~= word.push(name));
                    lemma_text_in_line(src, next, eol, line);
                    lemma_in_line_append(
                        src,
                        word.push(name),
                        lex_text(src, next, eol, line),
                        from,
                        next,
                        eol,
                        line,
                        true,
                    );
                }
            }
        } else {
            lemma_text_in_line(src, e, eol, line);
            lemma_in_line_append(
                src,
                seq![token(src, line, p, e, TokenType::VALUE)],
                lex_text(src, e, eol, line),
                from,
                e,
                eol,
                line,
                true,
            );
        }
    }
}

/// The tokens of a line lie in that line.
proof fn lemma_line_in_line(src: Seq<Classified>, from: int, eol: int, line: int)
    requires
        0 <= from <= eol <= src.len(),
    ensures
        lex_line(src, from, eol, line) matches Ok(tokens) ==> in_line(
            src,
            tokens,
            from,
            eol,
            line,
            false,
        ),
        lex_line(src, from, eol, line) matches Err(d) ==> points_into(d, from, eol, line),
{
    let s = run_end(src, from, eol, CharClass::Blank);
    lemma_run_end_bounds(src, from, eol, CharClass::Blank);
    if s < eol {
        let w = run_end(src, s, eol, CharClass::Word);
        lemma_run_end_bounds(src, s, eol, CharClass::Word);
        if let Some(kind) = keyword_kind(text_of(src).subrange(s, w)) {
            let n = run_end(src, w, eol, CharClass::Blank);
            lemma_run_end_bounds(src, w, eol, CharClass::Blank);
            if n < src.len() {
                let m = run_end(src, n, eol, CharClass::Name);
                lemma_run_end_bounds(src, n, eol, CharClass::Name);
                let head = statement_head(src, line, s, w, kind, n, m);
                let a = run_end(src, m, eol, CharClass::Blank);
                lemma_run_end_bounds(src, m, eol, CharClass::Blank);
                assert(in_line(src, head, from, a, line, false));
                if a < eol && kind != TokenType::INPUT && kind != TokenType::OUTPUT && src[a].c
                    == '=' {
                    let opened = head.push(token(src, line, a, a + 1, TokenType::EQUAL));
                    assert(in_line(src, opened, from, a + 1, line, false));
                    if kind == TokenType::ZAHL {
                        lemma_number_in_line(src, a + 1, eol, line, true);
                        lemma_in_line_append(
                            src,
                            opened,
                            lex_number(src, a + 1, eol, line),
                            from,
                            a + 1,
                            eol,
                            line,
                            false,
                        );
                    } else {
                        lemma_text_in_line(src, a + 1, eol, line);
                        lemma_in_line_append(
                            src,
                            opened,
                            lex_text(src, a + 1, eol, line),
                            from,
                            a + 1,
                            eol,
                            line,
                            false,
                        );
                    }
                }
            }
        }
    }
}

/// A stretch without a line terminator has as many of them before its end as
/// before its start.
proof fn lemma_newlines_before_stretch(src: Seq<Classified>, from: int, to: int)
    requires
        0 <= from <= to,
        forall|i: int| from <= i < to ==> CharClass::Line.holds(#[trigger] src[i]),
    ensures
        newlines_before(src, to) == newlines_before(src, from),
    decreases to - from,
{
    if from < to {
        lemma_newlines_before_stretch(src, from, to - 1);
        assert(CharClass::Line.holds(src[to - 1]));
    }
}

/// Whether tokens are the tokens of the source from the line that starts at
/// `from` on.
spec fn rest_well_formed(src: Seq<Classified>, tokens: Seq<SpecToken>, from: int) -> bool {
    &&& tokens.len() > 0
    &&& tokens.last().token_type == TokenType::EOF
    &&& forall|i: int|
        0 <= i < tokens.len() - 1 ==> (#[trigger] tokens[i]).token_type != TokenType::EOF
    &&& forall|i: int|
        0 <= i < tokens.len() ==> in_source(src, #[trigger] tokens[i]) && from <= tokens[i].start
    &&& in_order(tokens)
    &&& delimited(tokens)
}

proof fn lemma_lines_well_formed(src: Seq<Classified>, from: int, line: int)
    requires
        0 <= from <= src.len(),
        line == newlines_before(src, from) + 1,
    ensures
        lex_lines(src, from, line) matches Ok(tokens) ==> rest_well_formed(src, tokens, from),
        lex_lines(src, from, line) matches Err(d) ==> error_in_source(src, d),
    decreases src.len() - from,
{
    let n = src.len() as int;
    let eol = run_end(src, from, n, CharClass::Line);
    lemma_run_end_bounds(src, from, n, CharClass::Line);
    lemma_run_end_maximal(src, from, n, CharClass::Line);
    lemma_line_in_line(src, from, eol, line);
    if let Err(d) = lex_line(src, from, eol, line) {
        assert forall|k: int| from <= k < d.start implies CharClass::Line.holds(
            #[trigger] src[k],
        ) by {}
        lemma_newlines_before_stretch(src, from, d.start);
    }
    if let Ok(here) = lex_line(src, from, eol, line) {
        assert forall|i: int| 0 <= i < here.len() implies in_source(src, #[trigger] here[i]) by {
            let t = here[i];
            assert forall|k: int| from <= k < t.start implies CharClass::Line.holds(
                #[trigger] src[k],
            ) by {}
            lemma_newlines_before_stretch(src, from, t.start);
        }
        lemma_newlines_before_stretch(src, from, eol);
        if eol >= n {
            let last = token(src, line, n, n, TokenType::EOF);
            let all = here.push(last);
            assert(in_source(src, last));
            assert forall|i: int| 0 <= i < all.len() implies in_source(src, #[trigger] all[i])
                && from <= all[i].start by {
                if i < here.len() {
                    assert(all[i] == here[i]);
                }
            }
            assert forall|i: int, j: int| 0 <= i < j < all.len() implies (#[trigger] all[i]).end
                <= (#[trigger] all[j]).start && all[i].line <= all[j].line by {
                assert(all[i] == here[i]);
                if j < here.len() {
                    assert(all[j] == here[j]);
                }
            }
            assert forall|i: int| 0 <= i < all.len() - 1 implies (#[trigger] all[i]).token_type
                != TokenType::EOF by {
                assert(all[i] == here[i]);
            }
            assert forall|i: int| 0 < i < all.len() implies #[trigger] follows_newline(all, i) by {
                if i < here.len() {
                    assert(all[i] == here[i]);
                }
            }
        } else {
            let newline = token(src, line, eol, eol + 1, TokenType::NEWLINE);
            assert(src[eol].c == '\n');
            assert(newlines_before(src, eol + 1) == line);
            lemma_lines_well_formed(src, eol + 1, line + 1);
            if let Ok(more) = lex_lines(src, eol + 1, line + 1) {
                let first = here.push(newline);
                let all = first + more;
                assert(in_source(src, newline));
                assert forall|i: int| 0 <= i < all.len() implies in_source(src, #[trigger] all[i])
                    && from <= all[i].start by {
                    if i < here.len() {
                        assert(all[i] == here[i]);
                    } else if i == here.len() {
                        assert(all[i] == newline);
                    } else {
                        assert(all[i] == more[i - first.len()]);
                    }
                }
                assert forall|i: int, j: int| 0 <= i < j < all.len() implies (
                #[trigger] all[i]).end <= (#[trigger] all[j]).start && all[i].line
                    <= all[j].line by {
                    if i < here.len() {
                        assert(all[i] == here[i]);
                    } else if i == here.len() {
                        assert(all[i] == newline);
                    } else {
                        assert(all[i] == more[i - first.len()]);
                    }
                    if j < here.len() {
                        assert(all[j] == here[j]);
                    } else if j == here.len() {
                        assert(all[j] == newline);
                    } else {
                        assert(all[j] == more[j - first.len()]);
                        lemma_newlines_before_monotone(src, eol + 1, all[j].start);
                    }
                }
                assert forall|i: int| 0 <= i < all.len() - 1 implies (
                #[trigger] all[i]).token_type != TokenType::EOF by {
                    if i < here.len() {
                        assert(all[i] == here[i]);
                    } else if i == here.len() {
                        assert(all[i] == newline);
                    } else {
                        assert(all[i] == more[i - first.len()]);
                    }
                }
                assert(all.last() == more.last());
                assert forall|i: int| 0 < i < all.len() implies #[trigger] follows_newline(
                    all,
                    i,
                ) by {
                    if i < here.len() {
                        assert(all[i] == here[i]);
                    } else if i == here.len() {
                        assert(all[i] == newline);
                    } else if i == first.len() {
                        assert(all[i - 1] == newline);
                    } else {
                        assert(all[i] == more[i - first.len()]);
                        assert(all[i - 1] == more[i - 1 - first.len()]);
                        assert(follows_newline(more, i - first.len()));
                    }
                }
            }
        }
    }
}

/// A later offset has at least as many line terminators before it.
proof fn lemma_newlines_before_monotone(src: Seq<Classified>, from: int, to: int)
    requires
        from <= to,
    ensures
        newlines_before(src, from) <= newlines_before(src, to),
    decreases to - from,
{
    if from < to {
        lemma_newlines_before_monotone(src, from, to - 1);
    }
}

/// The tokens of a source text are well formed: each covers the characters
/// that it holds and is on the line that it says, they come in the order of
/// the source, and exactly the last one is `EOF`. This holds of the empty
/// source too.
pub proof fn law_tokens_well_formed(src: Seq<Classified>)
    ensures
        lex_spec(src) matches Ok(tokens) ==> well_formed(src, tokens),
{
    if src.len() < usize::MAX {
        lemma_lines_well_formed(src, 0, 1);
    }
}

/// A lexical error points into the source: it covers a range of characters
/// of the source, on the line that it names.
pub proof fn law_lexical_error_in_source(src: Seq<Classified>)
    ensures
        lex_spec(src) matches Err(d) ==> error_in_source(src, d),
{
    if src.len() < usize::MAX {
        lemma_lines_well_formed(src, 0, 1);
    }
}

} // verus!
