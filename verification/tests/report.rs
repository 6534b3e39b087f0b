use redlang::error::CodeError;
use redlang::lexer::Lexer;
use redlang::report::{Paint, Segment};

fn texts(row: &[Segment]) -> Vec<(&str, Paint)> {
    row.iter().map(|s| (s.text.as_str(), s.paint)).collect()
}

#[test]
fn report_marks_the_range() {
    let source = "Zahl a = 1\nZahl b = 1 2\n";
    let err = Lexer::new(source).lex().unwrap_err();
    let rows = err.report(source);
    assert_eq!(rows.len(), 3);
    assert_eq!(texts(&rows[0]), vec![("  | ", Paint::Plain)]);
    assert_eq!(
        texts(&rows[1]),
        vec![
            ("2", Paint::Yellow),
            (" | ", Paint::Plain),
            ("Zahl b = 1 ", Paint::Green),
            ("2", Paint::RedBold),
            ("", Paint::Yellow),
        ]
    );
    assert_eq!(
        texts(&rows[2]),
        vec![
            ("  |            ", Paint::Plain),
            ("^", Paint::Red),
            (" ", Paint::Plain),
            ("Expected Math Operator (+,-,*,/)", Paint::Red),
        ]
    );
}

#[test]
fn report_underlines_every_character() {
    let source = "Zahl a\nPrint a b\n";
    let err = CodeError::new(2, 7, 12, "bad word");
    let rows = err.report(source);
    assert_eq!(
        texts(&rows[1]),
        vec![
            ("2", Paint::Yellow),
            (" | ", Paint::Plain),
            ("", Paint::Green),
            ("Print", Paint::RedBold),
            (" a b", Paint::Yellow),
        ]
    );
    assert_eq!(rows[2][1].text, "^~~~~");
}

#[test]
fn report_without_the_line() {
    let err = CodeError::new(7, 0, 1, "lost");
    let rows = err.report("one\ntwo");
    assert_eq!(rows.len(), 2);
    assert_eq!(texts(&rows[0]), vec![("Error on line 7!", Paint::Plain)]);
    assert_eq!(texts(&rows[1]), vec![("lost", Paint::Plain)]);
    let rows = CodeError::new(0, 0, 0, "none").report("one");
    assert_eq!(texts(&rows[0]), vec![("Error on line 0!", Paint::Plain)]);
}

#[test]
fn report_on_the_last_line_without_terminator() {
    let rows = CodeError::new(2, 4, 7, "here").report("one\ntwo");
    assert_eq!(rows[1][3].text, "two");
    assert_eq!(rows[1][2].text, "");
    let rows = CodeError::new(3, 8, 8, "end").report("one\ntwo\n");
    assert_eq!(rows.len(), 3);
    assert_eq!(rows[2][1].text, "");
}

#[test]
fn report_tolerates_a_range_outside_the_line() {
    let rows = CodeError::new(1, 2, 50, "wide").report("abc\n");
    assert_eq!(rows[1][2].text, "ab");
    assert_eq!(rows[1][3].text, "c");
    assert_eq!(rows[1][4].text, "");
    let rows = CodeError::new(2, 1, 0, "backwards").report("abc\ndef");
    assert_eq!(rows[1][2].text, "d");
    assert_eq!(rows[1][3].text, "");
    assert_eq!(rows[1][4].text, "ef");
    assert_eq!(rows[2][1].text, "");
}

#[test]
fn error_keeps_what_it_was_given() {
    let err = CodeError::new(3, 4, 9, "message");
    assert_eq!((err.line(), err.start(), err.end()), (3, 4, 9));
    assert_eq!(err.message(), "message");
}
