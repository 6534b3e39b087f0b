use redlang::interpreter::{reads_input, Interpreter, RuntimeTypes};
use redlang::parser::{
    Expression, ExpressionTypes, IdentifierExpression, NumberExpression, NumberExpressionTypes,
    TextExpression, TextExpressionTypes,
};

fn name(n: &str) -> IdentifierExpression {
    IdentifierExpression::new(1, 10, 11, n.to_string())
}

fn statement() -> Expression {
    Expression::new(4, 0, 20, ExpressionTypes::OutputStatement(name("q")))
}

fn value(v: i64) -> NumberExpression {
    NumberExpression::new(1, 0, 1, NumberExpressionTypes::Value(v))
}

fn word(s: &str) -> TextExpression {
    TextExpression::new(1, 0, 1, TextExpressionTypes::Value(s.to_string()))
}

fn variable(n: &str) -> TextExpression {
    TextExpression::new(1, 2, 5, TextExpressionTypes::Identifier(name(n)))
}

fn node(kind: NumberExpressionTypes) -> NumberExpression {
    NumberExpression::new(2, 3, 9, kind)
}

fn bx(e: NumberExpression) -> Box<NumberExpression> {
    Box::new(e)
}

#[test]
fn runtime_value_as_number() {
    assert_eq!(RuntimeTypes::Number(-5).as_number(), Some(-5));
    assert_eq!(RuntimeTypes::String("17".to_string()).as_number(), Some(17));
    assert_eq!(RuntimeTypes::String("-17".to_string()).as_number(), Some(-17));
    assert_eq!(RuntimeTypes::String("17 ".to_string()).as_number(), None);
    assert_eq!(RuntimeTypes::String("".to_string()).as_number(), None);
    assert_eq!(RuntimeTypes::String("٣".to_string()).as_number(), None);
}

#[test]
fn runtime_value_as_string() {
    assert_eq!(RuntimeTypes::Number(-5).as_string(), Some("-5".to_string()));
    assert_eq!(RuntimeTypes::Number(1200).as_string(), Some("1200".to_string()));
    assert_eq!(
        RuntimeTypes::String("a b".to_string()).as_string(),
        Some("a b".to_string())
    );
}

#[test]
fn variables_are_set_and_overwritten() {
    let mut interpreter = Interpreter::new();
    let a = "a".to_string();
    assert_eq!(
        interpreter.get_var(&name("a"), &a).unwrap_err().message(),
        "Variable a not set!"
    );
    interpreter.set_var(&a, RuntimeTypes::Number(1));
    assert_eq!(interpreter.get_var(&name("a"), &a).unwrap().as_number(), Some(1));
    interpreter.set_var(&a, RuntimeTypes::String("x".to_string()));
    assert_eq!(
        interpreter.get_var(&name("a"), &a).unwrap().as_string(),
        Some("x".to_string())
    );
    let err = interpreter.get_var(&name("a"), &"b".to_string()).unwrap_err();
    assert_eq!((err.line(), err.start(), err.end()), (1, 10, 11));
    assert_eq!(err.message(), "Variable b not set!");
}

#[test]
fn number_expressions_wrap_around() {
    let interpreter = Interpreter::new();
    let s = statement();
    let eval = |e: NumberExpression| interpreter.eval_number_expression(&s, &e).unwrap();
    assert_eq!(eval(node(NumberExpressionTypes::Add(bx(value(i64::MAX)), bx(value(1))))), i64::MIN);
    assert_eq!(eval(node(NumberExpressionTypes::Sub(bx(value(i64::MIN)), bx(value(1))))), i64::MAX);
    assert_eq!(
        eval(node(NumberExpressionTypes::Mult(bx(value(i64::MAX)), bx(value(2))))),
        -2
    );
    assert_eq!(
        eval(node(NumberExpressionTypes::Mult(bx(value(3037000500)), bx(value(3037000500))))),
        3037000500i64.wrapping_mul(3037000500)
    );
    assert_eq!(eval(node(NumberExpressionTypes::Div(bx(value(7)), bx(value(2))))), 3);
    assert_eq!(eval(node(NumberExpressionTypes::Div(bx(value(-7)), bx(value(2))))), -3);
    assert_eq!(eval(node(NumberExpressionTypes::Div(bx(value(7)), bx(value(-2))))), -3);
    assert_eq!(eval(node(NumberExpressionTypes::Div(bx(value(-7)), bx(value(-2))))), 3);
    assert_eq!(
        eval(node(NumberExpressionTypes::Div(bx(value(i64::MIN)), bx(value(-1))))),
        i64::MIN
    );
}

#[test]
fn division_by_zero_points_at_the_division() {
    let interpreter = Interpreter::new();
    let e = node(NumberExpressionTypes::Div(bx(value(7)), bx(value(0))));
    let err = interpreter.eval_number_expression(&statement(), &e).unwrap_err();
    assert_eq!(err.message(), "Division by zero!");
    assert_eq!((err.line(), err.start(), err.end()), (2, 3, 9));
}

#[test]
fn left_operand_fails_first() {
    let interpreter = Interpreter::new();
    let left = NumberExpression::new(1, 0, 1, NumberExpressionTypes::Identifier(name("l")));
    let right = NumberExpression::new(1, 0, 1, NumberExpressionTypes::Identifier(name("r")));
    let e = node(NumberExpressionTypes::Add(bx(left), bx(right)));
    let err = interpreter.eval_number_expression(&statement(), &e).unwrap_err();
    assert_eq!(err.message(), "Variable l not set!");
}

#[test]
fn coercion_error_uses_the_line_of_the_statement() {
    let mut interpreter = Interpreter::new();
    interpreter.set_var(&"t".to_string(), RuntimeTypes::String("abc".to_string()));
    let e = NumberExpression::new(1, 0, 1, NumberExpressionTypes::Identifier(name("t")));
    let err = interpreter.eval_number_expression(&statement(), &e).unwrap_err();
    assert_eq!(err.message(), "Could not convert Text variable t to number!");
    assert_eq!((err.line(), err.start(), err.end()), (4, 10, 11));
}

#[test]
fn words_are_joined_with_a_space() {
    let mut interpreter = Interpreter::new();
    let e = TextExpression::join(word("hello"), word("world"));
    assert_eq!(
        interpreter.eval_string_expression(&statement(), &e).unwrap(),
        "hello world"
    );
    let e = TextExpression::join(word(""), word(""));
    assert_eq!(interpreter.eval_string_expression(&statement(), &e).unwrap(), " ");
}

#[test]
fn references_are_glued_to_their_neighbours() {
    let mut interpreter = Interpreter::new();
    interpreter.set_var(&"n".to_string(), RuntimeTypes::String("X".to_string()));
    interpreter.set_var(&"k".to_string(), RuntimeTypes::Number(-3));
    let s = statement();
    let e = TextExpression::join(word("hello"), variable("n"));
    assert_eq!(interpreter.eval_string_expression(&s, &e).unwrap(), "helloX");
    let e = TextExpression::join(variable("n"), word("hello"));
    assert_eq!(interpreter.eval_string_expression(&s, &e).unwrap(), "Xhello");
    let e = TextExpression::join(word("a"), TextExpression::join(variable("k"), word("b")));
    assert_eq!(interpreter.eval_string_expression(&s, &e).unwrap(), "a-3b");
    let e = TextExpression::join(word("a"), TextExpression::join(word("b"), variable("k")));
    assert_eq!(interpreter.eval_string_expression(&s, &e).unwrap(), "a b-3");
    let e = TextExpression::join(word("cost$"), word("5"));
    assert_eq!(interpreter.eval_string_expression(&s, &e).unwrap(), "cost$5");
    let e = TextExpression::join(word("a"), variable("missing"));
    let err = interpreter.eval_string_expression(&s, &e).unwrap_err();
    assert_eq!(err.message(), "Variable missing not set!");
}

#[test]
fn assignments_bind_the_value() {
    let mut interpreter = Interpreter::new();
    let s = statement();
    interpreter.assign_number(&s, &name("a"), &value(9)).unwrap();
    interpreter.assign_string(&s, &name("b"), &word("w")).unwrap();
    assert_eq!(interpreter.output(&name("a")).unwrap(), "9");
    assert_eq!(interpreter.output(&name("b")).unwrap(), "w");
    let err = interpreter
        .assign_string(&s, &name("a"), &variable("zz"))
        .unwrap_err();
    assert_eq!(err.message(), "Variable zz not set!");
    assert_eq!(interpreter.output(&name("a")).unwrap(), "9");
    let err = interpreter.output(&name("c")).unwrap_err();
    assert_eq!(err.message(), "Variable c not set!");
    assert_eq!((err.line(), err.start(), err.end()), (1, 10, 11));
}

#[test]
fn input_strips_the_terminator_only() {
    let mut interpreter = Interpreter::new();
    let s = statement();
    interpreter
        .input(&name("a"), &s, Some("  two words \t\r\n".to_string()))
        .unwrap();
    assert_eq!(interpreter.output(&name("a")).unwrap(), "  two words \t");
    interpreter.input(&name("x"), &s, Some("abc  \n".to_string())).unwrap();
    assert_eq!(interpreter.output(&name("x")).unwrap(), "abc  ");
    interpreter.input(&name("a"), &s, Some(String::new())).unwrap();
    assert_eq!(interpreter.output(&name("a")).unwrap(), "");
    interpreter.input(&name("a"), &s, Some("\u{a0}\u{2003}".to_string())).unwrap();
    assert_eq!(interpreter.output(&name("a")).unwrap(), "\u{a0}\u{2003}");
    interpreter.input(&name("a"), &s, Some("no terminator".to_string())).unwrap();
    assert_eq!(interpreter.output(&name("a")).unwrap(), "no terminator");
    let err = interpreter.input(&name("a"), &s, None).unwrap_err();
    assert_eq!(err.message(), "Error while reading input!");
    assert_eq!((err.line(), err.start(), err.end()), (4, 0, 20));
}

#[test]
fn run_keeps_what_was_written_before() {
    let mut interpreter = Interpreter::new();
    let mut output = vec!["earlier".to_string()];
    let statements = vec![
        Expression::new(1, 0, 1, ExpressionTypes::NumberAssignment(name("a"), value(4))),
        Expression::new(2, 0, 1, ExpressionTypes::InputStatement(name("b"))),
        Expression::new(3, 0, 1, ExpressionTypes::OutputStatement(name("b"))),
        Expression::new(4, 0, 1, ExpressionTypes::OutputStatement(name("a"))),
    ];
    interpreter
        .run(statements, &vec!["typed\n".to_string(), "unused\n".to_string()], &mut output)
        .unwrap();
    assert_eq!(output, vec!["earlier", "typed", "4"]);
}

#[test]
fn only_input_statements_read_input() {
    assert!(reads_input(&Expression::new(
        1,
        0,
        7,
        ExpressionTypes::InputStatement(name("a"))
    )));
    assert!(!reads_input(&statement()));
    assert!(!reads_input(&Expression::new(
        1,
        0,
        7,
        ExpressionTypes::NumberAssignment(name("a"), value(1))
    )));
    assert!(!reads_input(&Expression::new(
        1,
        0,
        7,
        ExpressionTypes::TextAssignment(name("a"), word("w"))
    )));
}

#[test]
fn step_executes_one_statement() {
    let mut interpreter = Interpreter::new();
    let assign = Expression::new(1, 0, 10, ExpressionTypes::NumberAssignment(name("a"), value(4)));
    let text = Expression::new(2, 0, 10, ExpressionTypes::TextAssignment(name("t"), word("w")));
    let read = Expression::new(3, 0, 7, ExpressionTypes::InputStatement(name("b")));
    let write_a = Expression::new(4, 0, 8, ExpressionTypes::OutputStatement(name("a")));
    let write_b = Expression::new(5, 0, 8, ExpressionTypes::OutputStatement(name("b")));
    let write_t = Expression::new(6, 0, 8, ExpressionTypes::OutputStatement(name("t")));
    assert_eq!(interpreter.step(&assign, None).unwrap(), None);
    assert_eq!(interpreter.step(&text, Some("ignored\n".to_string())).unwrap(), None);
    assert_eq!(interpreter.step(&write_a, None).unwrap(), Some("4".to_string()));
    assert_eq!(interpreter.step(&write_t, None).unwrap(), Some("w".to_string()));
    let err = interpreter.step(&write_b, None).unwrap_err();
    assert_eq!(err.message(), "Variable b not set!");
    assert_eq!(interpreter.step(&read, Some("typed  \n".to_string())).unwrap(), None);
    assert_eq!(interpreter.step(&write_b, None).unwrap(), Some("typed  ".to_string()));
    let err = interpreter.step(&read, None).unwrap_err();
    assert_eq!(err.message(), "Error while reading input!");
    assert_eq!((err.line(), err.start(), err.end()), (3, 0, 7));
    assert_eq!(interpreter.step(&write_b, None).unwrap(), Some("typed  ".to_string()));
}

#[test]
fn steps_and_run_agree() {
    let program = || {
        vec![
            Expression::new(1, 0, 7, ExpressionTypes::InputStatement(name("a"))),
            Expression::new(2, 0, 8, ExpressionTypes::OutputStatement(name("a"))),
            Expression::new(3, 0, 7, ExpressionTypes::InputStatement(name("b"))),
            Expression::new(4, 0, 8, ExpressionTypes::OutputStatement(name("b"))),
            Expression::new(5, 0, 8, ExpressionTypes::OutputStatement(name("c"))),
            Expression::new(6, 0, 8, ExpressionTypes::OutputStatement(name("a"))),
        ]
    };
    let input = vec!["one \n".to_string(), "two\r\n".to_string(), "three\n".to_string()];
    let mut whole = Vec::new();
    let failed = Interpreter::new().run(program(), &input, &mut whole).unwrap_err();

    let mut interpreter = Interpreter::new();
    let mut lines = input.clone().into_iter();
    let mut stepped = Vec::new();
    let mut error = None;
    for statement in program() {
        let line = if reads_input(&statement) { lines.next() } else { None };
        match interpreter.step(&statement, line) {
            Ok(Some(written)) => stepped.push(written),
            Ok(None) => {}
            Err(e) => {
                error = Some(e);
                break;
            }
        }
    }
    assert_eq!(whole, vec!["one ", "two"]);
    assert_eq!(stepped, whole);
    assert_eq!(error.unwrap().message(), failed.message());
    assert_eq!(failed.message(), "Variable c not set!");
}
