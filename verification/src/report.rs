//! A diagnostic shown against the source text that it points into: the line
//! it is on, with the range of the error marked, and the message under it.
//! The report is laid out here as rows of stretches of text, each with the
//! colour it is meant to have; putting colours on a screen is left to the caller.

use crate::error::{CodeError, Diagnostic};
use crate::text::{concat3, push_char, render_nat, string_of, to_chars, u64_to_string};
use vstd::prelude::*;
use vstd::string::*;

verus! {

/// How a stretch of a report is to be painted.
#[derive(Clone, Copy, Debug, PartialEq, Eq, Structural)]
pub enum Paint {
    Plain,
    Yellow,
    Green,
    Red,
    RedBold,
}

/// What a `Segment` says.
pub struct SpecSegment {
    pub text: Seq<char>,
    pub paint: Paint,
}

/// A stretch of one row of a report.
#[derive(Debug)]
pub struct Segment {
    pub text: String,
    pub paint: Paint,
}

impl View for Segment {
    type V = SpecSegment;

    open spec fn view(&self) -> SpecSegment {
        SpecSegment { text: self.text@, paint: self.paint }
    }
}

/// The stretches of a row as what they say.
pub open spec fn segment_views(row: Seq<Segment>) -> Seq<SpecSegment> {
    row.map_values(|s: Segment| s@)
}

/// The rows of a report as what they say.
pub open spec fn row_views(rows: Seq<Vec<Segment>>) -> Seq<Seq<SpecSegment>> {
    rows.map_values(|r: Vec<Segment>| segment_views(r@))
}

/// Where the line that holds the offset `from` ends: at the next `\n`, or at
/// the end of the source.
pub open spec fn line_end(src: Seq<char>, from: int) -> int
    decreases src.len() - from,
{
    if from < src.len() && src[from] != '\n' {
        line_end(src, from + 1)
    } else {
        from
    }
}

/// The offset at which a line starts, if the source has that many lines. Lines
/// are counted from one, and each `\n` ends one: a source of n terminators has
/// n + 1 lines, the last of which may be empty.
pub open spec fn line_start(src: Seq<char>, number: int) -> Option<int>
    decreases number,
{
    if number <= 0 {
        None
    } else if number == 1 {
        Some(0)
    } else {
        match line_start(src, number - 1) {
            None => None,
            Some(s) => {
                let e = line_end(src, s);
                if e < src.len() {
                    Some(e + 1)
                } else {
                    None
                }
            },
        }
    }
}

/// The characters `from..to` of a text, as far as it has them.
pub open spec fn clip(text: Seq<char>, from: int, to: int) -> Seq<char> {
    let a = if from < text.len() {
        from
    } else {
        text.len() as int
    };
    let b = if to < text.len() {
        to
    } else {
        text.len() as int
    };
    text.subrange(a, b)
}

/// One character, `n` times.
pub open spec fn repeat(c: char, n: int) -> Seq<char> {
    Seq::new(n as nat, |i: int| c)
}

/// The marks under a range of `width` characters: a `^` under the first, and
/// a `~` under each of the others.
pub open spec fn underline(width: int) -> Seq<char> {
    Seq::new(
        width as nat,
        |i: int|
            if i == 0 {
                '^'
            } else {
                '~'
            },
    )
}

/// The stretch of text in one paint.
pub open spec fn painted(text: Seq<char>, paint: Paint) -> SpecSegment {
    SpecSegment { text, paint }
}

/// The report of a diagnostic against a source text.
///
/// Where the source has the line of the diagnostic, the report has three rows:
/// an empty one behind the margin, the line itself with its number in the
/// margin, and the marks with the message. The line is cut in three: what
/// stands before the range of the error, the range, and what stands behind
/// it. The range starts at the column that the start of the error has in its
/// line, and is as wide as the error is long. A start that lies before the line
/// is taken as a column itself, and an end before the start as a width of
/// zero. Where the source does not have the line, the report names the line
/// and gives the message.
pub open spec fn report_spec(d: Diagnostic, src: Seq<char>) -> Seq<Seq<SpecSegment>> {
    let number = render_nat(d.line as nat);
    match line_start(src, d.line) {
        None => seq![
            seq![painted("Error on line "@ + number + "!"@, Paint::Plain)],
            seq![painted(d.msg, Paint::Plain)],
        ],
        Some(s) => {
            let e = line_end(src, s);
            let text = src.subrange(s, e);
            let column = if d.start < s {
                d.start
            } else {
                d.start - s
            };
            let width = if d.start <= d.end {
                d.end - d.start
            } else {
                0
            };
            let margin = repeat(' ', number.len() as int) + " | "@;
            seq![
                seq![painted(margin, Paint::Plain)],
                seq![
                    painted(number, Paint::Yellow),
                    painted(" | "@, Paint::Plain),
                    painted(clip(text, 0, column), Paint::Green),
                    painted(clip(text, column, column + width), Paint::RedBold),
                    painted(clip(text, column + width, text.len() as int), Paint::Yellow),
                ],
                seq![
                    painted(margin + repeat(' ', column), Paint::Plain),
                    painted(underline(width), Paint::Red),
                    painted(" "@, Paint::Plain),
                    painted(d.msg, Paint::Red),
                ],
            ]
        },
    }
}

/// A source that lacks a line lacks every later line too.
proof fn lemma_no_later_line(src: Seq<char>, number: int, later: int)
    requires
        1 <= number <= later,
        line_start(src, number) is None,
    ensures
        line_start(src, later) is None,
    decreases later - number,
{
    if number < later {
        lemma_no_later_line(src, number, later - 1);
    }
}

/// The offset at which a line starts, if the text has that many lines.
pub fn find_line(chars: &Vec<char>, number: usize) -> (r: Option<usize>)
    ensures
        match line_start(chars@, number as int) {
            Some(s) => r == Some(s as usize) && 0 <= s <= chars@.len(),
            None => r is None,
        },
{
    if number == 0 {
        return None;
    }
    let n: usize = chars.len();
    let mut start: usize = 0;
    let mut k: usize = 1;
    while k < number
        invariant
            1 <= k <= number,
            n == chars@.len(),
            start <= n,
            line_start(chars@, k as int) == Some(start as int),
        decreases number - k,
    {
        let mut end: usize = start;
        while end < n && chars[end] != '\n'
            invariant
                start <= end <= n,
                n == chars@.len(),
                line_end(chars@, start as int) == line_end(chars@, end as int),
            decreases n - end,
        {
            end += 1;
        }
        if end >= n {
            proof {
                lemma_no_later_line(chars@, k + 1, number as int);
            }
            return None;
        }
        start = end + 1;
        k += 1;
    }
    Some(start)
}

/// One character, `n` times.
pub fn repeated(c: char, n: usize) -> (s: String)
    ensures
        s@ == repeat(c, n as int),
{
    let mut s = String::new();
    let mut i: usize = 0;
    assert(s@ =~= repeat(c, 0));
    while i < n
        invariant
            i <= n,
            s@ == repeat(c, i as int),
        decreases n - i,
    {
        push_char(&mut s, c);
        assert(repeat(c, i as int).push(c) =~= repeat(c, i + 1));
        i += 1;
    }
    s
}

/// The marks under a range of `width` characters.
pub fn underline_of(width: usize) -> (s: String)
    ensures
        s@ == underline(width as int),
{
    let mut s = String::new();
    let mut i: usize = 0;
    assert(s@ =~= underline(0));
    while i < width
        invariant
            i <= width,
            s@ == underline(i as int),
        decreases width - i,
    {
        let mark: char = if i == 0 {
            '^'
        } else {
            '~'
        };
        push_char(&mut s, mark);
        assert(underline(i as int).push(mark) =~= underline(i + 1));
        i += 1;
    }
    s
}

/// The characters `from..to` of the line `start..end`, as far as it has them.
fn clipped(chars: &Vec<char>, start: usize, end: usize, from: usize, to: usize) -> (s: String)
    requires
        start <= end <= chars@.len(),
        from <= to || end - start <= to,
    ensures
        s@ == clip(chars@.subrange(start as int, end as int), from as int, to as int),
{
    let length: usize = end - start;
    let a: usize = if from < length {
        from
    } else {
        length
    };
    let b: usize = if to < length {
        to
    } else {
        length
    };
    let s = string_of(chars, start + a, start + b);
    assert(chars@.subrange(start as int, end as int).subrange(a as int, b as int)
        =~= chars@.subrange(start + a, start + b));
    s
}

fn segment(text: String, paint: Paint) -> (s: Segment)
    ensures
        s@ == painted(text@, paint),
{
    Segment { text, paint }
}

impl CodeError {
    /// The report of the error against the source text that it came from, row
    /// by row.
    pub fn report(&self, input: &str) -> (rows: Vec<Vec<Segment>>)
        ensures
            row_views(rows@) == report_spec(self@, input@),
    {
        let chars = to_chars(input);
        let n: usize = chars.len();
        let number = u64_to_string(self.line() as u64);
        let mut rows: Vec<Vec<Segment>> = Vec::new();
        match find_line(&chars, self.line()) {
            None => {
                let mut first: Vec<Segment> = Vec::new();
                first.push(
                    segment(concat3("Error on line ", number.as_str(), "!"), Paint::Plain),
                );
                let mut second: Vec<Segment> = Vec::new();
                second.push(segment(String::from_str(self.message()), Paint::Plain));
                assert(segment_views(first@) =~= seq![
                    painted("Error on line "@ + number@ + "!"@, Paint::Plain),
                ]);
                assert(segment_views(second@) =~= seq![painted(self@.msg, Paint::Plain)]);
                rows.push(first);
                rows.push(second);
                assert(row_views(rows@) =~= report_spec(self@, input@));
            },
            Some(start) => {
                let mut end: usize = start;
                while end < n && chars[end] != '\n'
                    invariant
                        start <= end <= n,
                        n == chars@.len(),
                        line_end(chars@, start as int) == line_end(chars@, end as int),
                    decreases n - end,
                {
                    end += 1;
                }
                let column: usize = if self.start() < start {
                    self.start()
                } else {
                    self.start() - start
                };
                let width: usize = if self.start() <= self.end() {
                    self.end() - self.start()
                } else {
                    0
                };
                let ghost text = chars@.subrange(start as int, end as int);
                let mut margin = repeated(' ', number.as_str().unicode_len());
                margin.append(" | ");
                let mut indent = margin.clone();
                indent.append(repeated(' ', column).as_str());

                let mut first: Vec<Segment> = Vec::new();
                first.push(segment(margin, Paint::Plain));
                assert(segment_views(first@) =~= seq![
                    painted(repeat(' ', number@.len() as int) + " | "@, Paint::Plain),
                ]);

                let mut second: Vec<Segment> = Vec::new();
                second.push(segment(number, Paint::Yellow));
                second.push(segment(String::from_str(" | "), Paint::Plain));
                second.push(segment(clipped(&chars, start, end, 0, column), Paint::Green));
                second.push(
                    segment(clipped(&chars, start, end, column, column + width), Paint::RedBold),
                );
                second.push(
                    segment(
                        clipped(&chars, start, end, column + width, end - start),
                        Paint::Yellow,
                    ),
                );
                assert(segment_views(second@) =~= seq![
                    painted(render_nat(self@.line as nat), Paint::Yellow),
                    painted(" | "@, Paint::Plain),
                    painted(clip(text, 0, column as int), Paint::Green),
                    painted(clip(text, column as int, column + width), Paint::RedBold),
                    painted(clip(text, column + width, text.len() as int), Paint::Yellow),
                ]);

                let mut third: Vec<Segment> = Vec::new();
                third.push(segment(indent, Paint::Plain));
                third.push(segment(underline_of(width), Paint::Red));
                third.push(segment(String::from_str(" "), Paint::Plain));
                third.push(segment(String::from_str(self.message()), Paint::Red));
                assert(segment_views(third@) =~= seq![
                    painted(
                        repeat(' ', render_nat(self@.line as nat).len() as int) + " | "@ + repeat(
                            ' ',
                            column as int,
                        ),
                        Paint::Plain,
                    ),
                    painted(underline(width as int), Paint::Red),
                    painted(" "@, Paint::Plain),
                    painted(self@.msg, Paint::Red),
                ]);

                rows.push(first);
                rows.push(second);
                rows.push(third);
                assert(row_views(rows@) =~= report_spec(self@, input@));
            },
        }
        rows
    }
}

} // verus!
