use redlang::error::CodeError;
use redlang::interpreter::Interpreter;
use redlang::lexer::Lexer;
use redlang::parser::Parser;

fn run_program(source: &str, input: &[&str]) -> Result<Vec<String>, CodeError> {
    let tokens = Lexer::new(source).lex()?;
    let statements = Parser::new(tokens).parse()?;
    let lines: Vec<String> = input.iter().map(|s| s.to_string()).collect();
    let mut output = Vec::new();
    Interpreter::new().run(statements, &lines, &mut output)?;
    Ok(output)
}

fn output_of(source: &str) -> Vec<String> {
    run_program(source, &[]).expect("the program runs")
}

#[test]
fn overflow_wraps() {
    assert_eq!(
        output_of("Zahl a = 9223372036854775807 + 1\nOutput a\n"),
        vec!["-9223372036854775808"]
    );
}

#[test]
fn no_precedence_evaluation() {
    assert_eq!(output_of("Zahl a = 2 + 3 * 4\nOutput a\n"), vec!["20"]);
}

#[test]
fn chain_folds_from_the_left() {
    assert_eq!(output_of("Zahl a = 10 - 3 - 2\nOutput a\n"), vec!["5"]);
    assert_eq!(output_of("Zahl a = 2 * 3 + 4\nOutput a\n"), vec!["10"]);
    assert_eq!(output_of("Zahl a = 7 / 2 * 2\nOutput a\n"), vec!["6"]);
}

#[test]
fn text_joining_words() {
    assert_eq!(output_of("Text a = hello world\nOutput a\n"), vec!["hello world"]);
}

#[test]
fn text_joining_interpolation() {
    assert_eq!(
        output_of("Text n = X\nText a = hello $n$\nOutput a\n"),
        vec!["helloX"]
    );
}

#[test]
fn unset_variable_fails() {
    let err = run_program("Output missing\n", &[]).unwrap_err();
    assert_eq!(err.line(), 1);
    assert_eq!(err.start(), 7);
    assert_eq!(err.end(), 14);
    assert_eq!(err.message(), "Variable missing not set!");
}

#[test]
fn coercion_fails_on_text() {
    let err = run_program("Text t = abc\nZahl n = $t$\n", &[]).unwrap_err();
    assert_eq!(err.message(), "Could not convert Text variable t to number!");
    assert_eq!(err.line(), 2);
    assert_eq!((err.start(), err.end()), (23, 24));
}

#[test]
fn coercion_reads_decimal_text() {
    assert_eq!(
        output_of("Text t = 42\nZahl n = $t$\nOutput n\n"),
        vec!["42"]
    );
}

#[test]
fn defaults_without_value() {
    assert_eq!(output_of("Zahl a\nOutput a\n"), vec!["0"]);
    assert_eq!(output_of("Text s\nOutput s\n"), vec![""]);
}

#[test]
fn runs_without_trailing_newline() {
    assert_eq!(output_of("Zahl a = 5\nOutput a"), vec!["5"]);
}

#[test]
fn input_is_read_line_by_line() {
    let out = run_program("Input a\nInput b\nOutput b\nOutput a\n", &["first\n", "second  \r\n"]);
    assert_eq!(out.unwrap(), vec!["second  ", "first"]);
}

#[test]
fn input_without_a_line_fails() {
    let err = run_program("Input a\n", &[]).unwrap_err();
    assert_eq!(err.message(), "Error while reading input!");
    assert_eq!((err.line(), err.start(), err.end()), (1, 0, 7));
}

#[test]
fn division_by_zero_is_reported() {
    let err = run_program("Zahl a = 1 / 0\n", &[]).unwrap_err();
    assert_eq!(err.message(), "Division by zero!");
    assert_eq!((err.line(), err.start(), err.end()), (1, 9, 14));
}

#[test]
fn division_truncates_and_wraps() {
    assert_eq!(output_of("Zahl z = 0\nZahl a = $z$ - 7 / 2\nOutput a\n"), vec!["-3"]);
    assert_eq!(
        output_of("Zahl z = 0\nZahl m = $z$ - 9223372036854775807 - 1\nZahl n = $z$ - 1\nZahl a = $m$ / $n$\nOutput a\n"),
        vec!["-9223372036854775808"]
    );
}

#[test]
fn redeclaring_overwrites_the_kind() {
    assert_eq!(
        output_of("Zahl a = 1\nText a = one\nOutput a\n"),
        vec!["one"]
    );
}

#[test]
fn escaped_dollar_glues() {
    assert_eq!(output_of("Text a = price$$5\nOutput a\n"), vec!["price$5"]);
}

#[test]
fn failing_statement_stops_the_run() {
    let tokens = Lexer::new("Zahl a = 1\nOutput a\nOutput b\nOutput a\n").lex().unwrap();
    let statements = Parser::new(tokens).parse().unwrap();
    let mut output = Vec::new();
    let mut interpreter = Interpreter::new();
    let err = interpreter.run(statements, &Vec::new(), &mut output).unwrap_err();
    assert_eq!(output, vec!["1"]);
    assert_eq!(err.message(), "Variable b not set!");
    assert_eq!(err.line(), 3);
}

#[test]
fn replay_gives_identical_output() {
    let source = "Zahl a = 3 * 4\nText t = a is $a$\nOutput t\nOutput a\n";
    let first = output_of(source);
    let second = output_of(source);
    assert_eq!(first, second);
    assert_eq!(first, vec!["a is12", "12"]);
}

#[test]
fn every_statement_runs_once_in_order() {
    let out = output_of("Zahl a = 1\nOutput a\nZahl a = $a$ + 1\nOutput a\nZahl a = $a$ + 1\nOutput a\n");
    assert_eq!(out, vec!["1", "2", "3"]);
}

#[test]
fn text_with_several_references() {
    let out = output_of("Zahl n = 3\nText w = ab\nText t = x $n$ y $w$ $n$ z$$ q\nOutput t\n");
    assert_eq!(out, vec!["x3yab3z$q"]);
    let out = output_of("Text t = a b $$ c d\nOutput t\n");
    assert_eq!(out, vec!["a b $c d"]);
}

#[test]
fn number_from_input_is_coerced() {
    let out = run_program("Input a\nZahl b = $a$ * 2\nOutput b\n", &["21\n"]).unwrap();
    assert_eq!(out, vec!["42"]);
    let err = run_program("Input a\nZahl b = $a$ * 2\n", &["2 1\n"]).unwrap_err();
    assert_eq!(err.message(), "Could not convert Text variable a to number!");
}

#[test]
fn empty_program_does_nothing() {
    assert_eq!(output_of(""), Vec::<String>::new());
    assert_eq!(output_of("\n  \n"), Vec::<String>::new());
}

#[test]
fn lexical_error_stops_before_parsing() {
    let err = run_program("Output a\nFoo\n", &[]).unwrap_err();
    assert_eq!(err.message(), "Expected Text, Zahl, Output or Input!");
    assert_eq!((err.line(), err.start(), err.end()), (2, 9, 12));
}

#[test]
fn parse_error_stops_before_running() {
    let err = run_program("Zahl a = 1\nOutput a\nZahl b = 1 +\n", &[]).unwrap_err();
    assert_eq!(err.message(), "Error while parsing value!");
    assert_eq!(err.line(), 3);
}

#[test]
fn input_keeps_the_blanks_of_the_line() {
    let out = run_program("Input x\nText t = [ $x$ ]\nOutput t\n", &["abc  \n"]).unwrap();
    assert_eq!(out, vec!["[abc  ]"]);
    let err = run_program("Input x\nZahl n = $x$\n", &["7 \n"]).unwrap_err();
    assert_eq!(err.message(), "Could not convert Text variable x to number!");
}

#[test]
fn keyword_without_a_name_does_not_run() {
    let err = run_program("Zahl a = 1\nOutput\nOutput a\n", &[]).unwrap_err();
    assert_eq!(err.message(), "Expected identifier");
    assert_eq!((err.line(), err.start(), err.end()), (2, 17, 18));
}
