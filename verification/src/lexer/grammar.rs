//! What the lexer computes, as a function from the source to its tokens.
//!
//! The source is a sequence of characters, each with its class from the Unicode
//! tables beside it. Every `\n` ends a line, and a line
//! holds at most one statement: a keyword, a name and, for a declaration, an
//! optional `=` with a value behind it. The functions below read one piece
//! each; `lex_spec` puts them together.

use crate::error::Diagnostic;
use crate::lexer::tokens::{SpecToken, TokenType};
use crate::text::{is_digit, text_of, Classified};
use vstd::prelude::*;

verus! {

/// The classes of characters that the scanner tells apart.
#[derive(Clone, Copy, Debug, PartialEq, Eq, Structural)]
pub enum CharClass {
    /// Whitespace between the pieces of a statement.
    Blank,
    /// Anything but whitespace: what a keyword is cut from.
    Word,
    /// Letters, digits and `_`: what a name is made of. A name may start with a digit.
    Name,
    /// An ASCII decimal digit.
    Digit,
    /// Neither whitespace nor `$`: what a word of a text value is made of.
    Plain,
    /// Anything but the line terminator.
    Line,
}

impl CharClass {
    /// Whether a character is of the class.
    pub open spec fn holds(self, m: Classified) -> bool {
        match self {
            CharClass::Blank => m.whitespace,
            CharClass::Word => !m.whitespace,
            CharClass::Name => m.alphanumeric || m.c == '_',
            CharClass::Digit => is_digit(m.c),
            CharClass::Plain => !m.whitespace && m.c != '$',
            CharClass::Line => m.c != '\n',
        }
    }
}

/// Where the longest run of characters of one class that starts at `from` and
/// stays below `to` ends.
pub open spec fn run_end(src: Seq<Classified>, from: int, to: int, class: CharClass) -> int
    decreases to - from,
{
    if from < to && class.holds(src[from]) {
        run_end(src, from + 1, to, class)
    } else {
        from
    }
}

/// A run ends at or after its start, and within its bound.
pub proof fn lemma_run_end_bounds(src: Seq<Classified>, from: int, to: int, class: CharClass)
    ensures
        from <= run_end(src, from, to, class),
        from <= to ==> run_end(src, from, to, class) <= to,
        from < to && class.holds(src[from]) ==> from < run_end(src, from, to, class),
    decreases to - from,
{
    if from < to && class.holds(src[from]) {
        lemma_run_end_bounds(src, from + 1, to, class);
    }
}

/// Every character of a run is of its class, and the one behind it, if the
/// bound leaves one, is not.
pub proof fn lemma_run_end_maximal(src: Seq<Classified>, from: int, to: int, class: CharClass)
    ensures
        forall|i: int| from <= i < run_end(src, from, to, class) ==> class.holds(#[trigger] src[i]),
        run_end(src, from, to, class) < to ==> !class.holds(src[run_end(src, from, to, class)]),
    decreases to - from,
{
    if from < to && class.holds(src[from]) {
        lemma_run_end_maximal(src, from + 1, to, class);
    }
}

/// The token of one kind that covers the characters `start..end` of the source.
pub open spec fn token(src: Seq<Classified>, line: int, start: int, end: int, kind: TokenType)
    -> SpecToken {
    SpecToken { line, start, end, token_type: kind, value: text_of(src).subrange(start, end) }
}

/// The tokens read so far, followed by what the rest of the line gives.
pub open spec fn after(first: Seq<SpecToken>, rest: Result<Seq<SpecToken>, Diagnostic>) -> Result<
    Seq<SpecToken>,
    Diagnostic,
> {
    match rest {
        Ok(more) => Ok(first + more),
        Err(e) => Err(e),
    }
}

/// The kind of statement that a leading word opens.
pub open spec fn keyword_kind(word: Seq<char>) -> Option<TokenType> {
    if word == "Zahl"@ {
        Some(TokenType::ZAHL)
    } else if word == "Text"@ {
        Some(TokenType::TEXT)
    } else if word == "Input"@ {
        Some(TokenType::INPUT)
    } else if word == "Output"@ {
        Some(TokenType::OUTPUT)
    } else {
        None
    }
}

/// The kind of token that an arithmetic operator makes.
pub open spec fn operator_kind(c: char) -> Option<TokenType> {
    if c == '+' {
        Some(TokenType::ADD)
    } else if c == '-' {
        Some(TokenType::SUB)
    } else if c == '*' {
        Some(TokenType::MULT)
    } else if c == '/' {
        Some(TokenType::DIV)
    } else {
        None
    }
}

/// A variable reference `$name$` whose first `$` stands at `open`: the token of
/// the name and the offset behind the closing `$`. The reference must be closed
/// by exactly one `$`.
pub open spec fn lex_reference(src: Seq<Classified>, open: int, eol: int, line: int) -> Result<
    (SpecToken, int),
    Diagnostic,
> {
    let e = run_end(src, open + 1, eol, CharClass::Name);
    if e >= eol || src[e].c != '$' {
        Err(Diagnostic { line, start: open, end: e, msg: "Expected closing $ for variable"@ })
    } else if e + 1 < eol && src[e + 1].c == '$' {
        Err(
            Diagnostic {
                line,
                start: e,
                end: e + 2,
                msg: "Found $$ but expected $ because of present variable"@,
            },
        )
    } else {
        Ok((token(src, line, open + 1, e, TokenType::IDENTIFIER), e + 1))
    }
}

/// The value of a number declaration from `from` to the end of the line, where
/// a term is due: a run of digits or a variable reference, and then an
/// operator and a further term, as often as the line goes on. An empty rest is
/// left to the parser.
pub open spec fn lex_number(src: Seq<Classified>, from: int, eol: int, line: int) -> Result<
    Seq<SpecToken>,
    Diagnostic,
>
    decreases eol - from,
{
    let p = run_end(src, from, eol, CharClass::Blank);
    if p >= eol {
        Ok(Seq::empty())
    } else if is_digit(src[p].c) {
        let e = run_end(src, p, eol, CharClass::Digit);
        proof {
            lemma_run_end_bounds(src, from, eol, CharClass::Blank);
            lemma_run_end_bounds(src, p, eol, CharClass::Digit);
        }
        after(seq![token(src, line, p, e, TokenType::VALUE)], lex_operator(src, e, eol, line))
    } else if src[p].c == '$' {
        match lex_reference(src, p, eol, line) {
            Err(e) => Err(e),
            Ok((name, next)) => {
                proof {
                    lemma_run_end_bounds(src, from, eol, CharClass::Blank);
                    lemma_run_end_bounds(src, p + 1, eol, CharClass::Name);
                }
                after(seq![name], lex_operator(src, next, eol, line))
            },
        }
    } else {
        Err(
            Diagnostic {
                line,
                start: p,
                end: p + 1,
                msg: "Expected digit or variable in number token"@,
            },
        )
    }
}

/// The rest of a number declaration from `from`, where an operator is due.
pub open spec fn lex_operator(src: Seq<Classified>, from: int, eol: int, line: int) -> Result<
    Seq<SpecToken>,
    Diagnostic,
>
    decreases eol - from,
{
    let p = run_end(src, from, eol, CharClass::Blank);
    if p >= eol {
        Ok(Seq::empty())
    } else {
        match operator_kind(src[p].c) {
            None => Err(
                Diagnostic {
                    line,
                    start: p,
                    end: p + 1,
                    msg: "Expected Math Operator (+,-,*,/)"@,
                },
            ),
            Some(kind) => {
                proof {
                    lemma_run_end_bounds(src, from, eol, CharClass::Blank);
                }
                after(seq![token(src, line, p, p + 1, kind)], lex_number(src, p + 1, eol, line))
            },
        }
    }
}

/// The value of a text declaration from `from` to the end of the line.
///
/// Whitespace separates words, and each word is a value token. A `$` ends the
/// word before it. Two of them in a row stand for a dollar sign, which the word
/// keeps at its end; a single one opens a variable reference.
pub open spec fn lex_text(src: Seq<Classified>, from: int, eol: int, line: int) -> Result<
    Seq<SpecToken>,
    Diagnostic,
>
    decreases eol - from,
{
    let p = run_end(src, from, eol, CharClass::Blank);
    if p >= eol {
        Ok(Seq::empty())
    } else {
        let e = run_end(src, p, eol, CharClass::Plain);
        if e < eol && src[e].c == '$' {
            if e + 1 < eol && src[e + 1].c == '$' {
                proof {
                    lemma_run_end_bounds(src, from, eol, CharClass::Blank);
                    lemma_run_end_bounds(src, p, eol, CharClass::Plain);
                }
                after(
                    seq![token(src, line, p, e + 1, TokenType::VALUE)],
                    lex_text(src, e + 2, eol, line),
                )
            } else {
                match lex_reference(src, e, eol, line) {
                    Err(d) => Err(d),
                    Ok((name, next)) => {
                        proof {
                            lemma_run_end_bounds(src, from, eol, CharClass::Blank);
                            lemma_run_end_bounds(src, p, eol, CharClass::Plain);
                            lemma_run_end_bounds(src, e + 1, eol, CharClass::Name);
                        }
                        let word = if p < e {
                            seq![token(src, line, p, e, TokenType::VALUE)]
                        } else {
                            Seq::empty()
                        };
                        after(word.push(name), lex_text(src, next, eol, line))
                    },
                }
            }
        } else {
            proof {
                lemma_run_end_bounds(src, from, eol, CharClass::Blank);
                lemma_run_end_bounds(src, p, eol, CharClass::Plain);
                lemma_run_end_maximal(src, from, eol, CharClass::Blank);
            }
            after(seq![token(src, line, p, e, TokenType::VALUE)], lex_text(src, e, eol, line))
        }
    }
}

/// The tokens that open a statement: the keyword `s..w` and the name `n..m`.
/// An empty name makes no token: it is for the parser to miss it.
pub open spec fn statement_head(
    src: Seq<Classified>,
    line: int,
    s: int,
    w: int,
    kind: TokenType,
    n: int,
    m: int,
) -> Seq<SpecToken> {
    if n < m {
        seq![token(src, line, s, w, kind), token(src, line, n, m, TokenType::IDENTIFIER)]
    } else {
        seq![token(src, line, s, w, kind)]
    }
}

/// The tokens of the line `from..eol`, which holds no line terminator.
///
/// A line of whitespace gives nothing. Any other line starts with a keyword,
/// and the name is due behind it. Where the source ends before a name could
/// start, the scan has run out of input, which is an error. A name that is
/// missing anywhere else gives no token, and the parser reports it. `Input`
/// and `Output` take nothing more; `Zahl` and `Text` take nothing more or a `=`
/// and a value.
pub open spec fn lex_line(src: Seq<Classified>, from: int, eol: int, line: int) -> Result<
    Seq<SpecToken>,
    Diagnostic,
> {
    let s = run_end(src, from, eol, CharClass::Blank);
    if s >= eol {
        Ok(Seq::empty())
    } else {
        let w = run_end(src, s, eol, CharClass::Word);
        match keyword_kind(text_of(src).subrange(s, w)) {
            None => Err(
                Diagnostic {
                    line,
                    start: s,
                    end: w,
                    msg: "Expected Text, Zahl, Output or Input!"@,
                },
            ),
            Some(kind) => {
                let n = run_end(src, w, eol, CharClass::Blank);
                if n >= src.len() {
                    Err(Diagnostic { line, start: n, end: n, msg: "Expected identifier name"@ })
                } else {
                    let m = run_end(src, n, eol, CharClass::Name);
                    let head = statement_head(src, line, s, w, kind, n, m);
                    let a = run_end(src, m, eol, CharClass::Blank);
                    if a >= eol {
                        Ok(head)
                    } else if kind == TokenType::INPUT || kind == TokenType::OUTPUT {
                        Err(
                            Diagnostic {
                                line,
                                start: a,
                                end: a + 1,
                                msg: "Unknown token at this position!"@,
                            },
                        )
                    } else if src[a].c != '=' {
                        Err(
                            Diagnostic {
                                line,
                                start: a,
                                end: a + 1,
                                msg: "Expected Assignment with '=' "@,
                            },
                        )
                    } else {
                        after(
                            head.push(token(src, line, a, a + 1, TokenType::EQUAL)),
                            if kind == TokenType::ZAHL {
                                lex_number(src, a + 1, eol, line)
                            } else {
                                lex_text(src, a + 1, eol, line)
                            },
                        )
                    }
                }
            },
        }
    }
}

/// The tokens of the source from the start of a line at `from`, which is line
/// number `line`, to the end: the tokens of each line, a `NEWLINE` for each
/// line terminator, and one `EOF` at the end.
pub open spec fn lex_lines(src: Seq<Classified>, from: int, line: int) -> Result<
    Seq<SpecToken>,
    Diagnostic,
>
    decreases src.len() - from,
{
    let eol = run_end(src, from, src.len() as int, CharClass::Line);
    match lex_line(src, from, eol, line) {
        Err(e) => Err(e),
        Ok(tokens) => if eol >= src.len() {
            Ok(tokens.push(token(src, line, src.len() as int, src.len() as int, TokenType::EOF)))
        } else {
            proof {
                lemma_run_end_bounds(src, from, src.len() as int, CharClass::Line);
            }
            after(
                tokens.push(token(src, line, eol, eol + 1, TokenType::NEWLINE)),
                lex_lines(src, eol + 1, line + 1),
            )
        },
    }
}

/// The tokens of a source text, or the first lexical error in it. A source
/// must be short enough for its lines and characters to be counted: one that
/// has as many characters as the largest `usize` is an error as a whole.
pub open spec fn lex_spec(src: Seq<Classified>) -> Result<Seq<SpecToken>, Diagnostic> {
    if src.len() >= usize::MAX {
        Err(Diagnostic { line: 1, start: 0, end: 0, msg: "Source text is too long"@ })
    } else {
        lex_lines(src, 0, 1)
    }
}

/// Reading on after some tokens and then after more is reading on after all of them.
pub proof fn lemma_after_after(
    a: Seq<SpecToken>,
    b: Seq<SpecToken>,
    rest: Result<Seq<SpecToken>, Diagnostic>,
)
    ensures
        after(a, after(b, rest)) == after(a + b, rest),
{
    match rest {
        Ok(more) => {
            assert(a + (b + more) =~= (a + b) + more);
        },
        Err(_) => {},
    }
}

} // verus!
