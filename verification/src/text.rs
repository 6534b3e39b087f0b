//! Characters, strings and decimal numbers: the small vocabulary that the
//! lexer, the parser and the interpreter share.

use vstd::prelude::*;
use vstd::string::*;

verus! {

/// Whether `char::is_whitespace` holds of `c`: the Unicode `White_Space` property.
pub uninterp spec fn is_whitespace(c: char) -> bool;

/// Whether `char::is_alphanumeric` holds of `c`: the Unicode `Alphabetic` property
/// or one of the number categories.
pub uninterp spec fn is_alphanumeric(c: char) -> bool;

/// Calls `char::is_whitespace`. Nothing is proved of the Unicode tables behind it:
/// the result is taken to be the named property of the character.
#[verifier::external_body]
pub(crate) fn char_is_whitespace(c: char) -> (r: bool)
    ensures
        r == is_whitespace(c),
{
    c.is_whitespace()
}

/// Calls `char::is_alphanumeric`. Nothing is proved of the Unicode tables behind it:
/// the result is taken to be the named property of the character.
#[verifier::external_body]
pub(crate) fn char_is_alphanumeric(c: char) -> (r: bool)
    ensures
        r == is_alphanumeric(c),
{
    c.is_alphanumeric()
}

/// Calls `String::push`, which appends the character at the end of the string.
#[verifier::external_body]
pub(crate) fn push_char(s: &mut String, c: char)
    ensures
        final(s)@ == old(s)@.push(c),
{
    s.push(c)
}

/// A character together with what the Unicode tables say of it.
#[derive(Clone, Copy, Debug, PartialEq, Eq, Structural)]
pub struct Classified {
    pub c: char,
    pub whitespace: bool,
    pub alphanumeric: bool,
}

/// A character as the Unicode tables classify it.
pub open spec fn classified(c: char) -> Classified {
    Classified { c, whitespace: is_whitespace(c), alphanumeric: is_alphanumeric(c) }
}

/// A text with each of its characters classified.
pub open spec fn classified_text(s: Seq<char>) -> Seq<Classified> {
    s.map_values(|c: char| classified(c))
}

/// The characters of a classified text.
pub open spec fn text_of(marks: Seq<Classified>) -> Seq<char> {
    marks.map_values(|m: Classified| m.c)
}

/// Looks a character up in the Unicode tables.
pub fn classify(c: char) -> (m: Classified)
    ensures
        m == classified(c),
{
    Classified { c, whitespace: char_is_whitespace(c), alphanumeric: char_is_alphanumeric(c) }
}

/// The characters of a string slice, in order, each classified.
pub fn classify_text(s: &str) -> (v: Vec<Classified>)
    ensures
        v@ == classified_text(s@),
{
    let mut v: Vec<Classified> = Vec::new();
    for c in it: s.chars()
        invariant
            it.seq() == s@,
            v@.len() == it.index(),
            forall|j: int| 0 <= j < v@.len() ==> v@[j] == classified(it.seq()[j]),
    {
        v.push(classify(c));
    }
    assert(v@ =~= classified_text(s@));
    v
}

/// The string made of the characters `marks[from..to]`.
pub fn text_between(marks: &Vec<Classified>, from: usize, to: usize) -> (s: String)
    requires
        from <= to <= marks@.len(),
    ensures
        s@ == text_of(marks@).subrange(from as int, to as int),
{
    let mut s = String::new();
    let mut i: usize = from;
    assert(s@ =~= text_of(marks@).subrange(from as int, from as int));
    while i < to
        invariant
            from <= i <= to <= marks@.len(),
            s@ == text_of(marks@).subrange(from as int, i as int),
        decreases to - i,
    {
        push_char(&mut s, marks[i].c);
        assert(text_of(marks@).subrange(from as int, i as int).push(marks@[i as int].c)
            =~= text_of(marks@).subrange(from as int, i + 1));
        i += 1;
    }
    s
}

/// An ASCII decimal digit.
pub open spec fn is_digit(c: char) -> bool {
    0x30 <= c as int <= 0x39
}

/// The number that an ASCII decimal digit stands for.
pub open spec fn digit_value(c: char) -> int {
    c as int - 0x30
}

/// The ASCII decimal digit for a number below ten.
pub open spec fn digit_char(d: int) -> char {
    (d + 0x30) as char
}

/// Whether a character is an ASCII decimal digit.
pub fn char_is_digit(c: char) -> (r: bool)
    ensures
        r == is_digit(c),
{
    let code: u32 = c as u32;
    48 <= code && code <= 57
}

/// The characters of a string slice, in order.
pub fn to_chars(s: &str) -> (v: Vec<char>)
    ensures
        v@ == s@,
{
    let mut v: Vec<char> = Vec::new();
    for c in it: s.chars()
        invariant
            it.seq() == s@,
            v@.len() == it.index(),
            forall|j: int| 0 <= j < v@.len() ==> v@[j] == it.seq()[j],
    {
        v.push(c);
    }
    assert(v@ =~= s@);
    v
}

/// The string made of the characters `chars[from..to]`.
pub fn string_of(chars: &Vec<char>, from: usize, to: usize) -> (s: String)
    requires
        from <= to <= chars@.len(),
    ensures
        s@ == chars@.subrange(from as int, to as int),
{
    let mut s = String::new();
    let mut i: usize = from;
    while i < to
        invariant
            from <= i <= to <= chars@.len(),
            s@ == chars@.subrange(from as int, i as int),
        decreases to - i,
    {
        push_char(&mut s, chars[i]);
        assert(chars@.subrange(from as int, i as int).push(chars@[i as int]) =~= chars@.subrange(
            from as int,
            i + 1,
        ));
        i += 1;
    }
    s
}

/// The three pieces one after the other.
pub fn concat3(a: &str, b: &str, c: &str) -> (s: String)
    ensures
        s@ == a@ + b@ + c@,
{
    let mut s = String::from_str(a);
    s.append(b);
    s.append(c);
    s
}

/// The value of a run of decimal digits, most significant first.
pub open spec fn digits_value(s: Seq<char>) -> int
    decreases s.len(),
{
    if s.len() == 0 {
        0
    } else {
        digits_value(s.drop_last()) * 10 + digit_value(s.last())
    }
}

/// Whether every character of a text is an ASCII decimal digit.
pub open spec fn all_digits(s: Seq<char>) -> bool {
    forall|i: int| 0 <= i < s.len() ==> is_digit(#[trigger] s[i])
}

/// What a text means as a signed 64-bit decimal number: an optional `+` or `-`,
/// then at least one ASCII digit and nothing else, with a value in range.
pub open spec fn parse_decimal(s: Seq<char>) -> Option<i64> {
    if s.len() == 0 {
        None
    } else {
        let signed = s[0] == '-' || s[0] == '+';
        let digits = if signed {
            s.subrange(1, s.len() as int)
        } else {
            s
        };
        let value = if s[0] == '-' {
            -digits_value(digits)
        } else {
            digits_value(digits)
        };
        if digits.len() > 0 && all_digits(digits) && i64::MIN <= value <= i64::MAX {
            Some(value as i64)
        } else {
            None
        }
    }
}

/// A run of digits is worth at least as much as each of its prefixes.
pub proof fn lemma_digits_value_prefix(s: Seq<char>, k: int)
    requires
        all_digits(s),
        0 <= k <= s.len(),
    ensures
        0 <= digits_value(s.take(k)) <= digits_value(s),
    decreases s.len() - k,
{
    if k == s.len() {
        assert(s.take(k) =~= s);
        lemma_digits_value_nonnegative(s);
    } else {
        lemma_digits_value_prefix(s, k + 1);
        let longer = s.take(k + 1);
        assert(longer.drop_last() =~= s.take(k));
        assert(longer.last() == s[k]);
        assert(is_digit(s[k]));
        lemma_digits_value_nonnegative_prefix(s, k);
    }
}

proof fn lemma_digits_value_nonnegative_prefix(s: Seq<char>, k: int)
    requires
        all_digits(s),
        0 <= k <= s.len(),
    ensures
        0 <= digits_value(s.take(k)),
{
    let p = s.take(k);
    assert forall|i: int| 0 <= i < p.len() implies is_digit(#[trigger] p[i]) by {
        assert(p[i] == s[i]);
    }
    lemma_digits_value_nonnegative(p);
}

proof fn lemma_digits_value_nonnegative(s: Seq<char>)
    requires
        all_digits(s),
    ensures
        0 <= digits_value(s),
    decreases s.len(),
{
    if s.len() > 0 {
        let front = s.drop_last();
        assert forall|i: int| 0 <= i < front.len() implies is_digit(#[trigger] front[i]) by {
            assert(front[i] == s[i]);
        }
        lemma_digits_value_nonnegative(front);
        assert(is_digit(s[s.len() - 1]));
    }
}

/// Reads a signed 64-bit decimal number, as `parse_decimal` defines it.
pub fn parse_i64(s: &str) -> (r: Option<i64>)
    ensures
        r == parse_decimal(s@),
{
    let chars = to_chars(s);
    let n: usize = chars.len();
    if n == 0 {
        return None;
    }
    let negative = chars[0] == '-';
    let first: usize = if negative || chars[0] == '+' {
        1
    } else {
        0
    };
    let ghost digits = chars@.subrange(first as int, n as int);
    assert(first == 0 ==> digits =~= chars@);
    if first >= n {
        return None;
    }
    let limit: u64 = if negative {
        9223372036854775808
    } else {
        9223372036854775807
    };
    let mut acc: u64 = 0;
    let mut i: usize = first;
    assert(digits.take(0) =~= Seq::<char>::empty());
    while i < n
        invariant
            first <= i <= n,
            n == chars@.len(),
            digits == chars@.subrange(first as int, n as int),
            acc == digits_value(digits.take(i - first)),
            acc <= limit,
            limit == if negative {
                9223372036854775808u64
            } else {
                9223372036854775807u64
            },
            all_digits(digits.take(i - first)),
            chars@ == s@,
            n > 0,
            negative == (chars@[0] == '-'),
            first == if chars@[0] == '-' || chars@[0] == '+' {
                1usize
            } else {
                0usize
            },
            first == 0 ==> digits == chars@,
        decreases n - i,
    {
        let c = chars[i];
        let ghost k = i - first;
        assert(digits[k] == c);
        if !char_is_digit(c) {
            assert(!all_digits(digits));
            return None;
        }
        let d: u64 = (c as u32 - 48) as u64;
        assert(d == digit_value(c) && d <= 9);
        assert(digits.take(k + 1).drop_last() =~= digits.take(k));
        assert(digits.take(k + 1).last() == c);
        assert forall|j: int| 0 <= j < k + 1 implies is_digit(#[trigger] digits.take(k + 1)[j]) by {
            if j < k {
                assert(digits.take(k)[j] == digits.take(k + 1)[j]);
            }
        }
        if acc > (limit - d) / 10 {
            proof {
                assert(acc * 10 + d > limit);
                if all_digits(digits) {
                    lemma_digits_value_prefix(digits, k + 1);
                }
            }
            return None;
        }
        acc = acc * 10 + d;
        i += 1;
    }
    assert(digits.take(n - first) =~= digits);
    if negative {
        if acc == 9223372036854775808 {
            Some(i64::MIN)
        } else {
            Some(-(acc as i64))
        }
    } else {
        Some(acc as i64)
    }
}

/// The decimal digits of a natural number, without leading zeros.
pub open spec fn render_nat(n: nat) -> Seq<char>
    decreases n,
{
    if n < 10 {
        seq![digit_char(n as int)]
    } else {
        render_nat(n / 10).push(digit_char((n % 10) as int))
    }
}

/// An integer in base ten: a `-` for a negative one, then its digits.
pub open spec fn render_int(v: int) -> Seq<char> {
    if v < 0 {
        seq!['-'] + render_nat((-v) as nat)
    } else {
        render_nat(v as nat)
    }
}

fn push_digit(s: &mut String, d: u64)
    requires
        d < 10,
    ensures
        final(s)@ == old(s)@.push(digit_char(d as int)),
{
    let c: char = ((d + 48) as u8) as char;
    push_char(s, c);
}

fn push_nat(s: &mut String, n: u64)
    ensures
        final(s)@ == old(s)@ + render_nat(n as nat),
    decreases n,
{
    if n >= 10 {
        push_nat(s, n / 10);
    }
    push_digit(s, n % 10);
    proof {
        if n >= 10 {
            assert((old(s)@ + render_nat((n / 10) as nat)).push(digit_char((n % 10) as int))
                =~= old(s)@ + render_nat(n as nat));
        } else {
            assert(old(s)@.push(digit_char(n as int)) =~= old(s)@ + render_nat(n as nat));
        }
    }
}

/// Writes a natural number in base ten.
pub fn u64_to_string(n: u64) -> (s: String)
    ensures
        s@ == render_nat(n as nat),
{
    let mut s = String::new();
    push_nat(&mut s, n);
    assert(s@ =~= render_nat(n as nat));
    s
}

/// Writes a signed 64-bit number in base ten.
pub fn i64_to_string(v: i64) -> (s: String)
    ensures
        s@ == render_int(v as int),
{
    let mut s = String::new();
    if v < 0 {
        push_char(&mut s, '-');
        let magnitude: u64 = if v == i64::MIN {
            9223372036854775808
        } else {
            (-v) as u64
        };
        push_nat(&mut s, magnitude);
        assert(s@ =~= seq!['-'] + render_nat((-v) as nat));
    } else {
        push_nat(&mut s, v as u64);
        assert(s@ =~= render_nat(v as nat));
    }
    s
}

/// The digits that `render_nat` writes are digits, and they are worth the number.
pub proof fn lemma_render_nat_digits(n: nat)
    ensures
        render_nat(n).len() > 0,
        all_digits(render_nat(n)),
        digits_value(render_nat(n)) == n,
    decreases n,
{
    if n < 10 {
        let s = render_nat(n);
        assert(s.drop_last() =~= Seq::<char>::empty());
        assert(digits_value(s.drop_last()) == 0);
    } else {
        lemma_render_nat_digits(n / 10);
        let front = render_nat(n / 10);
        let s = render_nat(n);
        assert(s.drop_last() =~= front);
        assert forall|i: int| 0 <= i < s.len() implies is_digit(#[trigger] s[i]) by {
            if i < front.len() {
                assert(s[i] == front[i]);
            }
        }
    }
}

/// Reading what was written gives the number back.
pub proof fn lemma_parse_render(v: i64)
    ensures
        parse_decimal(render_int(v as int)) == Some(v),
{
    let s = render_int(v as int);
    if v < 0 {
        let m = (-v) as nat;
        lemma_render_nat_digits(m);
        assert(s[0] == '-');
        assert(s.subrange(1, s.len() as int) =~= render_nat(m));
    } else {
        let m = v as nat;
        lemma_render_nat_digits(m);
        assert(is_digit(s[0]));
    }
}

/// The line without its terminator: one `\n` at the end is dropped, and with
/// it a `\r` that stands directly before it. Nothing else is taken away, so
/// blanks at the end of the line stay, and a line that does not end in `\n`
/// is as it was.
pub open spec fn without_terminator(s: Seq<char>) -> Seq<char> {
    if s.len() > 0 && s.last() == '\n' {
        if s.len() > 1 && s[s.len() - 2] == '\r' {
            s.take(s.len() - 2)
        } else {
            s.take(s.len() - 1)
        }
    } else {
        s
    }
}

/// Strips the terminator from the end of a line that was read.
pub fn strip_line_end(line: &str) -> (r: String)
    ensures
        r@ == without_terminator(line@),
{
    let chars = to_chars(line);
    let n: usize = chars.len();
    let mut end: usize = n;
    if n > 0 && chars[n - 1] == '\n' {
        end = n - 1;
        if end > 0 && chars[end - 1] == '\r' {
            end = end - 1;
        }
    }
    let r = string_of(&chars, 0, end);
    assert(chars@.subrange(0, end as int) =~= without_terminator(line@));
    r
}

} // verus!
