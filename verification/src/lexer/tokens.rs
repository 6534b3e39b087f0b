use vstd::prelude::*;
use vstd::string::*;

verus! {

/// The kinds of token: the four keywords, a name, a piece of a value, the
/// `=` of a declaration, the four arithmetic operators, the end of a line and
/// the end of the source.
#[derive(Clone, Copy, Debug, PartialEq, Eq, Structural)]
pub enum TokenType {
    TEXT,
    ZAHL,
    EQUAL,
    VALUE,
    OUTPUT,
    INPUT,
    IDENTIFIER,
    NEWLINE,
    EOF,
    ADD,
    SUB,
    MULT,
    DIV,
}

/// What a `Token` says: its kind, the line it is on, the characters
/// `start..end` of the source that it covers, and those characters themselves.
pub struct SpecToken {
    pub line: int,
    pub start: int,
    pub end: int,
    pub token_type: TokenType,
    pub value: Seq<char>,
}

/// A token: its kind, the line it is on, the characters `start..end` of the
/// source that it covers, and those characters themselves. Offsets count
/// characters, not bytes, from the start of the source; lines count from one.
#[derive(Debug)]
pub struct Token {
    pub line: usize,
    pub start: usize,
    pub end: usize,
    pub token_type: TokenType,
    pub value: String,
}

impl View for Token {
    type V = SpecToken;

    open spec fn view(&self) -> SpecToken {
        SpecToken {
            line: self.line as int,
            start: self.start as int,
            end: self.end as int,
            token_type: self.token_type,
            value: self.value@,
        }
    }
}

impl Clone for Token {
    fn clone(&self) -> (t: Self)
        ensures
            t == *self,
    {
        Token {
            line: self.line,
            start: self.start,
            end: self.end,
            token_type: self.token_type,
            value: self.value.clone(),
        }
    }
}

impl Token {
    /// The token of kind `token_type` that holds `value`, at the characters
    /// `start..end` of line `line`.
    pub fn new(line: usize, start: usize, end: usize, value: String, token_type: TokenType) -> (t:
        Self)
        ensures
            t == (Token { line, start, end, token_type, value }),
    {
        Token { line, token_type, start, end, value }
    }
}

/// The tokens of a vector as what they say.
pub open spec fn token_views(tokens: Seq<Token>) -> Seq<SpecToken> {
    tokens.map_values(|t: Token| t@)
}

} // verus!
