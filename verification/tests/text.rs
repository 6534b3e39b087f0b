use redlang::lexer::{Lexer, TokenType};
use redlang::text::{
    char_is_digit, classify, classify_text, concat3, i64_to_string, parse_i64, string_of,
    strip_line_end, text_between, to_chars, u64_to_string, Classified,
};

#[test]
fn parse_reads_signed_decimal() {
    assert_eq!(parse_i64("42"), Some(42));
    assert_eq!(parse_i64("0042"), Some(42));
    assert_eq!(parse_i64("-0"), Some(0));
    assert_eq!(parse_i64("-9223372036854775808"), Some(i64::MIN));
    assert_eq!(parse_i64("9223372036854775807"), Some(i64::MAX));
    assert_eq!(parse_i64("9223372036854775808"), None);
    assert_eq!(parse_i64("-9223372036854775809"), None);
    assert_eq!(parse_i64("99999999999999999999999999"), None);
    assert_eq!(parse_i64("+7"), Some(7));
    assert_eq!(parse_i64(""), None);
    assert_eq!(parse_i64("-"), None);
    assert_eq!(parse_i64("+"), None);
    assert_eq!(parse_i64("abc"), None);
    assert_eq!(parse_i64("1 "), None);
    assert_eq!(parse_i64(" 1"), None);
    assert_eq!(parse_i64("1-"), None);
    assert_eq!(parse_i64("--1"), None);
}

#[test]
fn parse_agrees_with_the_standard_library() {
    for s in ["0", "-1", "+0", "007", "12a", "９", "1_0", "-+1", "18446744073709551616"] {
        assert_eq!(parse_i64(s), s.parse::<i64>().ok(), "on {:?}", s);
    }
}

#[test]
fn render_writes_base_ten() {
    assert_eq!(i64_to_string(0), "0");
    assert_eq!(i64_to_string(7), "7");
    assert_eq!(i64_to_string(-10), "-10");
    assert_eq!(i64_to_string(-9223372036854775808), "-9223372036854775808");
    assert_eq!(i64_to_string(9223372036854775807), "9223372036854775807");
    assert_eq!(u64_to_string(18446744073709551615), "18446744073709551615");
    assert_eq!(u64_to_string(100), "100");
}

#[test]
fn render_and_parse_are_inverse() {
    for v in [0, 1, -1, 9, 10, -10, 12345, i64::MAX, i64::MIN, i64::MIN + 1] {
        assert_eq!(parse_i64(&i64_to_string(v)), Some(v));
        assert_eq!(i64_to_string(v), v.to_string());
    }
}

#[test]
fn strings_are_built_from_characters() {
    let chars = to_chars("aäb€");
    assert_eq!(chars, vec!['a', 'ä', 'b', '€']);
    assert_eq!(string_of(&chars, 1, 3), "äb");
    assert_eq!(string_of(&chars, 2, 2), "");
    assert_eq!(concat3("a", "", "bc"), "abc");
    assert!(char_is_digit('0') && char_is_digit('9'));
    assert!(!char_is_digit('/') && !char_is_digit(':') && !char_is_digit('٣'));
}

#[test]
fn characters_are_classified() {
    assert_eq!(
        classify('a'),
        Classified { c: 'a', whitespace: false, alphanumeric: true }
    );
    assert_eq!(
        classify(' '),
        Classified { c: ' ', whitespace: true, alphanumeric: false }
    );
    assert_eq!(
        classify('\u{2003}'),
        Classified { c: '\u{2003}', whitespace: true, alphanumeric: false }
    );
    assert_eq!(
        classify('$'),
        Classified { c: '$', whitespace: false, alphanumeric: false }
    );
    assert_eq!(
        classify('٣'),
        Classified { c: '٣', whitespace: false, alphanumeric: true }
    );
    let marks = classify_text("ab \n");
    assert_eq!(marks.len(), 4);
    assert_eq!(text_between(&marks, 1, 3), "b ");
}

#[test]
fn line_ends_are_stripped() {
    assert_eq!(strip_line_end("abc\n"), "abc");
    assert_eq!(strip_line_end("abc\r\n"), "abc");
    assert_eq!(strip_line_end("abc  \n"), "abc  ");
    assert_eq!(strip_line_end("abc \t\r\n"), "abc \t");
    assert_eq!(strip_line_end("  a b  "), "  a b  ");
    assert_eq!(strip_line_end("abc"), "abc");
    assert_eq!(strip_line_end("abc\r"), "abc\r");
    assert_eq!(strip_line_end(""), "");
    assert_eq!(strip_line_end("\n"), "");
    assert_eq!(strip_line_end("\r\n"), "");
    assert_eq!(strip_line_end("\n\n"), "\n");
    assert_eq!(strip_line_end("a\r\r\n"), "a\r");
    assert_eq!(strip_line_end("a\n\r"), "a\n\r");
}

#[test]
fn lexer_goes_by_the_classes_it_is_given() {
    let mut marks = classify_text("Input x!y\n");
    let plain = Lexer::from_classified(marks.clone()).lex().unwrap_err();
    assert_eq!(plain.message(), "Unknown token at this position!");
    assert_eq!((plain.start(), plain.end()), (7, 8));
    marks[7].alphanumeric = true;
    let tokens = Lexer::from_classified(marks).lex().unwrap();
    assert_eq!(tokens[1].token_type, TokenType::IDENTIFIER);
    assert_eq!(tokens[1].value, "x!y");
}
