use crate::error::{CodeError, Diagnostic};
use crate::lexer::grammar::{
    after, keyword_kind, lemma_after_after, lemma_run_end_bounds, lex_line, lex_lines,
    lex_number, lex_operator, lex_reference, lex_spec, lex_text, operator_kind, run_end,
    statement_head, token, CharClass,
};
use crate::lexer::laws::{
    error_in_source, law_lexical_error_in_source, law_tokens_well_formed, well_formed,
};
use crate::lexer::tokens::{token_views, SpecToken, Token, TokenType};
use crate::text::{
    char_is_digit, classified_text, classify_text, text_between, text_of, to_chars, Classified,
};
use vstd::prelude::*;

verus! {

/// Whether a character is of a class.
pub fn class_holds(class: CharClass, m: Classified) -> (r: bool)
    ensures
        r == class.holds(m),
{
    match class {
        CharClass::Blank => m.whitespace,
        CharClass::Word => !m.whitespace,
        CharClass::Name => m.alphanumeric || m.c == '_',
        CharClass::Digit => char_is_digit(m.c),
        CharClass::Plain => !m.whitespace && m.c != '$',
        CharClass::Line => m.c != '\n',
    }
}

/// The kind of token that an arithmetic operator makes.
pub fn operator_of(c: char) -> (r: Option<TokenType>)
    ensures
        r == operator_kind(c),
{
    if c == '+' {
        Some(TokenType::ADD)
    } else if c == '-' {
        Some(TokenType::SUB)
    } else if c == '*' {
        Some(TokenType::MULT)
    } else if c == '/' {
        Some(TokenType::DIV)
    } else {
        None
    }
}

/// A scanner over one source text. It keeps the offset of the line it has
/// reached and that line's number.
pub struct Lexer {
    input: Vec<Classified>,
    current: usize,
    line: usize,
}

impl View for Lexer {
    type V = Seq<Classified>;

    /// The source text, each character with its class.
    closed spec fn view(&self) -> Seq<Classified> {
        self.input@
    }
}

impl Lexer {
    /// A lexer for a source text, which classifies each of its characters.
    pub fn new(input: &str) -> (lexer: Self)
        ensures
            lexer@ == classified_text(input@),
    {
        Lexer { input: classify_text(input), current: 0, line: 1 }
    }

    /// A lexer for a source text whose characters have been classified.
    pub fn from_classified(input: Vec<Classified>) -> (lexer: Self)
        ensures
            lexer@ == input@,
    {
        Lexer { input, current: 0, line: 1 }
    }

    /// The tokens of the source, from its first character on, or the first
    /// lexical error in it. The tokens end with `EOF`, and they are in the order
    /// of the source; the error points into the source.
    pub fn lex(&mut self) -> (r: Result<Vec<Token>, CodeError>)
        ensures
            final(self)@ == old(self)@,
            match r {
                Ok(tokens) => lex_spec(old(self)@) == Ok::<Seq<SpecToken>, Diagnostic>(
                    token_views(tokens@),
                ),
                Err(e) => lex_spec(old(self)@) == Err::<Seq<SpecToken>, Diagnostic>(e@),
            },
            r matches Ok(tokens) ==> well_formed(old(self)@, token_views(tokens@)),
            r matches Err(e) ==> error_in_source(old(self)@, e@),
    {
        let n: usize = self.input.len();
        let mut out: Vec<Token> = Vec::new();
        self.current = 0;
        self.line = 1;
        if n == usize::MAX {
            proof {
                law_lexical_error_in_source(self.input@);
            }
            return Err(CodeError::new(1, 0, 0, "Source text is too long"));
        }
        assert(token_views(out@) =~= Seq::<SpecToken>::empty());
        assert(after(Seq::<SpecToken>::empty(), lex_lines(self.input@, 0, 1)) == lex_lines(
            self.input@,
            0,
            1,
        )) by {
            match lex_lines(self.input@, 0, 1) {
                Ok(v) => {
                    assert(Seq::<SpecToken>::empty() + v =~= v);
                },
                Err(_) => {},
            }
        }
        loop
            invariant
                self.input == old(self).input,
                n == self.input@.len(),
                n < usize::MAX,
                self.current <= n,
                1 <= self.line <= self.current + 1,
                after(
                    token_views(out@),
                    lex_lines(self.input@, self.current as int, self.line as int),
                ) == lex_spec(self.input@),
                lex_spec(self.input@) == lex_lines(self.input@, 0, 1),
            decreases n - self.current,
        {
            let ghost src = self.input@;
            let ghost before = token_views(out@);
            let ghost from = self.current as int;
            let ghost line = self.line as int;
            let eol: usize = self.skip(self.current, n, CharClass::Line);
            match self.scan_line(self.current, eol, self.line, &mut out) {
                Err(e) => {
                    proof {
                        law_lexical_error_in_source(src);
                    }
                    return Err(e);
                },
                Ok(()) => {},
            }
            let ghost tokens = lex_line(src, from, eol as int, line)->Ok_0;
            if eol >= n {
                self.add_token(&mut out, self.line, n, n, TokenType::EOF);
                self.current = n;
                proof {
                    let last = token(src, line, n as int, n as int, TokenType::EOF);
                    assert(before + tokens.push(last) =~= (before + tokens).push(last));
                    law_tokens_well_formed(src);
                }
                return Ok(out);
            }
            self.add_token(&mut out, self.line, eol, eol + 1, TokenType::NEWLINE);
            proof {
                let newline = token(src, line, eol as int, eol + 1, TokenType::NEWLINE);
                lemma_after_after(before, tokens.push(newline), lex_lines(src, eol + 1, line + 1));
                assert(before + tokens.push(newline) =~= (before + tokens).push(newline));
            }
            self.current = eol + 1;
            self.line = self.line + 1;
        }
    }

    /// Where the run of characters of one class that starts at `from` ends.
    fn skip(&self, from: usize, eol: usize, class: CharClass) -> (end: usize)
        requires
            from <= eol <= self.input@.len(),
        ensures
            end == run_end(self.input@, from as int, eol as int, class),
            from <= end <= eol,
    {
        let mut end: usize = from;
        while end < eol && class_holds(class, self.input[end])
            invariant
                from <= end <= eol <= self.input@.len(),
                run_end(self.input@, from as int, eol as int, class) == run_end(
                    self.input@,
                    end as int,
                    eol as int,
                    class,
                ),
            decreases eol - end,
        {
            end += 1;
        }
        end
    }

    /// Appends the token of one kind that covers `start..end`.
    fn add_token(
        &self,
        out: &mut Vec<Token>,
        line: usize,
        start: usize,
        end: usize,
        kind: TokenType,
    )
        requires
            start <= end <= self.input@.len(),
        ensures
            token_views(final(out)@) == token_views(old(out)@).push(
                token(self.input@, line as int, start as int, end as int, kind),
            ),
    {
        let value = text_between(&self.input, start, end);
        out.push(Token::new(line, start, end, value, kind));
        assert(token_views(out@) =~= token_views(old(out)@).push(
            token(self.input@, line as int, start as int, end as int, kind),
        ));
    }

    /// Whether the characters `start..end` spell the word.
    fn spells(&self, start: usize, end: usize, word: &str) -> (r: bool)
        requires
            start <= end <= self.input@.len(),
        ensures
            r == (text_of(self.input@).subrange(start as int, end as int) == word@),
    {
        let letters = to_chars(word);
        if letters.len() != end - start {
            return false;
        }
        let mut i: usize = 0;
        while i < letters.len()
            invariant
                start <= end <= self.input@.len(),
                letters@.len() == end - start,
                letters@ == word@,
                i <= letters@.len(),
                forall|j: int| 0 <= j < i ==> self.input@[start + j].c == letters@[j],
            decreases letters@.len() - i,
        {
            if self.input[start + i].c != letters[i] {
                assert(text_of(self.input@).subrange(start as int, end as int)[i as int]
                    != word@[i as int]);
                return false;
            }
            i += 1;
        }
        assert(text_of(self.input@).subrange(start as int, end as int) =~= word@);
        true
    }

    /// The kind of statement that the word `start..end` opens.
    fn keyword(&self, start: usize, end: usize) -> (r: Option<TokenType>)
        requires
            start <= end <= self.input@.len(),
        ensures
            r == keyword_kind(text_of(self.input@).subrange(start as int, end as int)),
    {
        if self.spells(start, end, "Zahl") {
            Some(TokenType::ZAHL)
        } else if self.spells(start, end, "Text") {
            Some(TokenType::TEXT)
        } else if self.spells(start, end, "Input") {
            Some(TokenType::INPUT)
        } else if self.spells(start, end, "Output") {
            Some(TokenType::OUTPUT)
        } else {
            None
        }
    }

    /// Reads the variable reference whose first `$` stands at `open`.
    fn reference(&self, open: usize, eol: usize, line: usize, out: &mut Vec<Token>) -> (r: Result<
        usize,
        CodeError,
    >)
        requires
            open < eol <= self.input@.len(),
        ensures
            match lex_reference(self.input@, open as int, eol as int, line as int) {
                Ok((name, next)) => r == Ok::<usize, CodeError>(next as usize) && open < next
                    <= eol && token_views(final(out)@) == token_views(old(out)@).push(name),
                Err(d) => r matches Err(e) && e@ == d,
            },
    {
        let e: usize = self.skip(open + 1, eol, CharClass::Name);
        if e >= eol || self.input[e].c != '$' {
            return Err(CodeError::new(line, open, e, "Expected closing $ for variable"));
        }
        if e + 1 < eol && self.input[e + 1].c == '$' {
            return Err(
                CodeError::new(
                    line,
                    e,
                    e + 2,
                    "Found $$ but expected $ because of present variable",
                ),
            );
        }
        self.add_token(out, line, open + 1, e, TokenType::IDENTIFIER);
        Ok(e + 1)
    }

    /// Reads the value of a number declaration, from `from` to the end of the line.
    fn number_token(&self, from: usize, eol: usize, line: usize, out: &mut Vec<Token>) -> (r:
        Result<(), CodeError>)
        requires
            from <= eol <= self.input@.len(),
        ensures
            match lex_number(self.input@, from as int, eol as int, line as int) {
                Ok(tokens) => r is Ok && token_views(final(out)@) == token_views(old(out)@)
                    + tokens,
                Err(d) => r matches Err(e) && e@ == d,
            },
    {
        let ghost src = self.input@;
        let ghost before = token_views(out@);
        let ghost mut read: Seq<SpecToken> = Seq::empty();
        let mut pos: usize = from;
        let mut term: bool = true;
        proof {
            assert(before + read =~= before);
            assert(after(read, lex_number(src, from as int, eol as int, line as int))
                == lex_number(src, from as int, eol as int, line as int)) by {
                match lex_number(src, from as int, eol as int, line as int) {
                    Ok(v) => {
                        assert(read + v =~= v);
                    },
                    Err(_) => {},
                }
            }
        }
        loop
            invariant
                src == self.input@,
                from <= pos <= eol <= src.len(),
                before == token_views(old(out)@),
                token_views(out@) == before + read,
                lex_number(src, from as int, eol as int, line as int) == after(
                    read,
                    if term {
                        lex_number(src, pos as int, eol as int, line as int)
                    } else {
                        lex_operator(src, pos as int, eol as int, line as int)
                    },
                ),
            decreases eol - pos,
        {
            let p: usize = self.skip(pos, eol, CharClass::Blank);
            if p >= eol {
                proof {
                    assert(read + Seq::<SpecToken>::empty() =~= read);
                }
                return Ok(());
            }
            let c: char = self.input[p].c;
            if term {
                if char_is_digit(c) {
                    let e: usize = self.skip(p, eol, CharClass::Digit);
                    proof {
                        lemma_run_end_bounds(src, p as int, eol as int, CharClass::Digit);
                        let t = token(src, line as int, p as int, e as int, TokenType::VALUE);
                        lemma_after_after(
                            read,
                            seq![t],
                            lex_operator(src, e as int, eol as int, line as int),
                        );
                        assert(read + seq![t] =~= read.push(t));
                        assert(before + read.push(t) =~= (before + read).push(t));
                        read = read.push(t);
                    }
                    self.add_token(out, line, p, e, TokenType::VALUE);
                    pos = e;
                } else if c == '$' {
                    let ghost expected = lex_reference(src, p as int, eol as int, line as int);
                    match self.reference(p, eol, line, out) {
                        Err(e) => {
                            return Err(e);
                        },
                        Ok(next) => {
                            proof {
                                let t = expected->Ok_0.0;
                                lemma_after_after(
                                    read,
                                    seq![t],
                                    lex_operator(src, next as int, eol as int, line as int),
                                );
                                assert(read + seq![t] =~= read.push(t));
                                assert(before + read.push(t) =~= (before + read).push(t));
                                read = read.push(t);
                            }
                            pos = next;
                        },
                    }
                } else {
                    return Err(
                        CodeError::new(
                            line,
                            p,
                            p + 1,
                            "Expected digit or variable in number token",
                        ),
                    );
                }
                term = false;
            } else {
                match operator_of(c) {
                    None => {
                        return Err(
                            CodeError::new(line, p, p + 1, "Expected Math Operator (+,-,*,/)"),
                        );
                    },
                    Some(kind) => {
                        proof {
                            let t = token(src, line as int, p as int, p + 1, kind);
                            lemma_after_after(
                                read,
                                seq![t],
                                lex_number(src, p + 1, eol as int, line as int),
                            );
                            assert(read + seq![t] =~= read.push(t));
                            assert(before + read.push(t) =~= (before + read).push(t));
                            read = read.push(t);
                        }
                        self.add_token(out, line, p, p + 1, kind);
                        pos = p + 1;
                        term = true;
                    },
                }
            }
        }
    }

    /// Reads the value of a text declaration, from `from` to the end of the line.
    fn string_token(&self, from: usize, eol: usize, line: usize, out: &mut Vec<Token>) -> (r:
        Result<(), CodeError>)
        requires
            from <= eol <= self.input@.len(),
        ensures
            match lex_text(self.input@, from as int, eol as int, line as int) {
                Ok(tokens) => r is Ok && token_views(final(out)@) == token_views(old(out)@)
                    + tokens,
                Err(d) => r matches Err(e) && e@ == d,
            },
    {
        let ghost src = self.input@;
        let ghost before = token_views(out@);
        let ghost mut read: Seq<SpecToken> = Seq::empty();
        let mut pos: usize = from;
        proof {
            assert(before + read =~= before);
            assert(after(read, lex_text(src, from as int, eol as int, line as int)) == lex_text(
                src,
                from as int,
                eol as int,
                line as int,
            )) by {
                match lex_text(src, from as int, eol as int, line as int) {
                    Ok(v) => {
                        assert(read + v =~= v);
                    },
                    Err(_) => {},
                }
            }
        }
        loop
            invariant
                src == self.input@,
                from <= pos <= eol <= src.len(),
                before == token_views(old(out)@),
                token_views(out@) == before + read,
                lex_text(src, from as int, eol as int, line as int) == after(
                    read,
                    lex_text(src, pos as int, eol as int, line as int),
                ),
            decreases eol - pos,
        {
            let p: usize = self.skip(pos, eol, CharClass::Blank);
            if p >= eol {
                proof {
                    assert(read + Seq::<SpecToken>::empty() =~= read);
                }
                return Ok(());
            }
            let e: usize = self.skip(p, eol, CharClass::Plain);
            if e < eol && self.input[e].c == '$' {
                if e + 1 < eol && self.input[e + 1].c == '$' {
                    proof {
                        let t = token(src, line as int, p as int, e + 1, TokenType::VALUE);
                        lemma_after_after(
                            read,
                            seq![t],
                            lex_text(src, e + 2, eol as int, line as int),
                        );
                        assert(read + seq![t] =~= read.push(t));
                        assert(before + read.push(t) =~= (before + read).push(t));
                        read = read.push(t);
                    }
                    self.add_token(out, line, p, e + 1, TokenType::VALUE);
                    pos = e + 2;
                } else {
                    let ghost expected = lex_reference(src, e as int, eol as int, line as int);
                    let ghost word = if p < e {
                        seq![token(src, line as int, p as int, e as int, TokenType::VALUE)]
                    } else {
                        Seq::<SpecToken>::empty()
                    };
                    let ghost start = token_views(out@);
                    if p < e {
                        self.add_token(out, line, p, e, TokenType::VALUE);
                    }
                    assert(token_views(out@) =~= start + word);
                    match self.reference(e, eol, line, out) {
                        Err(d) => {
                            return Err(d);
                        },
                        Ok(next) => {
                            proof {
                                let name = expected->Ok_0.0;
                                lemma_after_after(
                                    read,
                                    word.push(name),
                                    lex_text(src, next as int, eol as int, line as int),
                                );
                                assert((before + read) + word.push(name) =~= ((before + read)
                                    + word).push(name));
                                assert(before + (read + word.push(name)) =~= (before + read)
                                    + word.push(name));
                                read = read + word.push(name);
                            }
                            pos = next;
                        },
                    }
                }
            } else {
                proof {
                    lemma_run_end_bounds(src, p as int, eol as int, CharClass::Plain);
                    crate::lexer::grammar::lemma_run_end_maximal(
                        src,
                        pos as int,
                        eol as int,
                        CharClass::Blank,
                    );
                    let t = token(src, line as int, p as int, e as int, TokenType::VALUE);
                    lemma_after_after(
                        read,
                        seq![t],
                        lex_text(src, e as int, eol as int, line as int),
                    );
                    assert(read + seq![t] =~= read.push(t));
                    assert(before + read.push(t) =~= (before + read).push(t));
                    read = read.push(t);
                }
                self.add_token(out, line, p, e, TokenType::VALUE);
                pos = e;
            }
        }
    }

    /// Reads the statement of the line `from..eol`, if it holds one.
    fn scan_line(&self, from: usize, eol: usize, line: usize, out: &mut Vec<Token>) -> (r: Result<
        (),
        CodeError,
    >)
        requires
            from <= eol <= self.input@.len(),
        ensures
            match lex_line(self.input@, from as int, eol as int, line as int) {
                Ok(tokens) => r is Ok && token_views(final(out)@) == token_views(old(out)@)
                    + tokens,
                Err(d) => r matches Err(e) && e@ == d,
            },
    {
        let ghost src = self.input@;
        let ghost before = token_views(out@);
        let s: usize = self.skip(from, eol, CharClass::Blank);
        if s >= eol {
            assert(before + Seq::<SpecToken>::empty() =~= before);
            return Ok(());
        }
        let w: usize = self.skip(s, eol, CharClass::Word);
        let kind = match self.keyword(s, w) {
            None => {
                return Err(CodeError::new(line, s, w, "Expected Text, Zahl, Output or Input!"));
            },
            Some(kind) => kind,
        };
        let n: usize = self.skip(w, eol, CharClass::Blank);
        if n >= self.input.len() {
            return Err(CodeError::new(line, n, n, "Expected identifier name"));
        }
        let m: usize = self.skip(n, eol, CharClass::Name);
        self.add_token(out, line, s, w, kind);
        if n < m {
            self.add_token(out, line, n, m, TokenType::IDENTIFIER);
        }
        let ghost head = statement_head(
            src,
            line as int,
            s as int,
            w as int,
            kind,
            n as int,
            m as int,
        );
        assert(token_views(out@) =~= before + head);
        let a: usize = self.skip(m, eol, CharClass::Blank);
        if a >= eol {
            return Ok(());
        }
        if kind == TokenType::INPUT || kind == TokenType::OUTPUT {
            return Err(CodeError::new(line, a, a + 1, "Unknown token at this position!"));
        }
        if self.input[a].c != '=' {
            return Err(CodeError::new(line, a, a + 1, "Expected Assignment with '=' "));
        }
        self.add_token(out, line, a, a + 1, TokenType::EQUAL);
        let ghost opened = head.push(token(src, line as int, a as int, a + 1, TokenType::EQUAL));
        assert(token_views(out@) =~= before + opened);
        let r = if kind == TokenType::ZAHL {
            self.number_token(a + 1, eol, line, out)
        } else {
            self.string_token(a + 1, eol, line, out)
        };
        proof {
            let rest = if kind == TokenType::ZAHL {
                lex_number(src, a + 1, eol as int, line as int)
            } else {
                lex_text(src, a + 1, eol as int, line as int)
            };
            if let Ok(tokens) = rest {
                assert((before + opened) + tokens =~= before + (opened + tokens));
            }
        }
        r
    }
}

} // verus!
