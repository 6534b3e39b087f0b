//! The diagnostic that every stage reports: a place in the source and a message.

use vstd::prelude::*;
use vstd::string::*;

verus! {

/// What a `CodeError` says: the line (counted from one), the range of
/// characters `start..end` (offsets into the whole source, in characters) and
/// the message.
pub struct Diagnostic {
    pub line: int,
    pub start: int,
    pub end: int,
    pub msg: Seq<char>,
}

/// A failure of one of the stages, with the place in the source that it is
/// about.
#[derive(Debug)]
pub struct CodeError {
    line: usize,
    start: usize,
    end: usize,
    msg: String,
}

impl View for CodeError {
    type V = Diagnostic;

    closed spec fn view(&self) -> Diagnostic {
        Diagnostic {
            line: self.line as int,
            start: self.start as int,
            end: self.end as int,
            msg: self.msg@,
        }
    }
}

impl CodeError {
    /// The error with the message `msg` at the characters `start..end` of
    /// line `line`.
    pub fn new(line: usize, start: usize, end: usize, msg: &str) -> (e: Self)
        ensures
            e@ == (Diagnostic {
                line: line as int,
                start: start as int,
                end: end as int,
                msg: msg@,
            }),
    {
        CodeError { line, start, end, msg: String::from_str(msg) }
    }

    /// The line of the source that the error is on, counted from one.
    pub fn line(&self) -> (n: usize)
        ensures
            n == self@.line,
    {
        self.line
    }

    /// The offset of the first character that the error covers.
    pub fn start(&self) -> (n: usize)
        ensures
            n == self@.start,
    {
        self.start
    }

    /// The offset after the last character that the error covers.
    pub fn end(&self) -> (n: usize)
        ensures
            n == self@.end,
    {
        self.end
    }

    /// What went wrong.
    pub fn message(&self) -> (m: &str)
        ensures
            m@ == self@.msg,
    {
        self.msg.as_str()
    }
}

} // verus!
