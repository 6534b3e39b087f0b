use redlang::lexer::{Lexer, Token, TokenType};
use redlang::parser::{
    Expression, ExpressionTypes, IdentifierExpression, NumberExpression, NumberExpressionTypes,
    Parser, TextExpression, TextExpressionTypes,
};

fn token(kind: TokenType, value: &str, start: usize, end: usize) -> Token {
    Token::new(1, start, end, value.to_string(), kind)
}

fn parse_source(source: &str) -> Vec<Expression> {
    let tokens = Lexer::new(source).lex().expect("the source lexes");
    Parser::new(tokens).parse().expect("the tokens parse")
}

fn number(e: &NumberExpression) -> String {
    match e.get_expression() {
        NumberExpressionTypes::Value(v) => v.to_string(),
        NumberExpressionTypes::Identifier(id) => id.var_name.clone(),
        NumberExpressionTypes::Add(a, b) => format!("({}+{})", number(a), number(b)),
        NumberExpressionTypes::Sub(a, b) => format!("({}-{})", number(a), number(b)),
        NumberExpressionTypes::Mult(a, b) => format!("({}*{})", number(a), number(b)),
        NumberExpressionTypes::Div(a, b) => format!("({}/{})", number(a), number(b)),
    }
}

fn text(e: &TextExpression) -> String {
    match e.get_expression() {
        TextExpressionTypes::Value(v) => format!("'{}'", v),
        TextExpressionTypes::Identifier(id) => format!("${}", id.var_name),
        TextExpressionTypes::Concat(a, b) => format!("[{} {}]", text(a), text(b)),
    }
}

#[test]
fn empty_tokens_give_no_statement() {
    assert_eq!(Parser::new(Vec::new()).parse().unwrap(), Vec::new());
    assert_eq!(parse_source(""), Vec::new());
    assert_eq!(parse_source("\n\n\n"), Vec::new());
}

#[test]
fn number_chain_folds_left() {
    let statements = parse_source("Zahl a = 2 + 3 * 4 - $b$ / 5\n");
    assert_eq!(statements.len(), 1);
    match statements[0].get_expression() {
        ExpressionTypes::NumberAssignment(name, value) => {
            assert_eq!(name.var_name, "a");
            assert_eq!((name.line, name.start, name.end), (1, 5, 6));
            assert_eq!(number(value), "((((2+3)*4)-b)/5)");
            assert_eq!((value.line, value.start, value.end), (1, 9, 28));
            match value.get_expression() {
                NumberExpressionTypes::Div(left, right) => {
                    assert_eq!((left.start, left.end), (9, 23));
                    assert_eq!((right.start, right.end), (27, 28));
                }
                other => panic!("not a division: {:?}", other),
            }
        }
        other => panic!("not a number assignment: {:?}", other),
    }
    assert_eq!(
        (statements[0].line, statements[0].start, statements[0].end),
        (1, 0, 28)
    );
}

#[test]
fn text_run_folds_right() {
    let statements = parse_source("Text t = a b $c$ d\n");
    match statements[0].get_expression() {
        ExpressionTypes::TextAssignment(name, value) => {
            assert_eq!(name.var_name, "t");
            assert_eq!(text(value), "['a' ['b' [$c 'd']]]");
            assert_eq!((value.start, value.end), (9, 18));
            match value.get_expression() {
                TextExpressionTypes::Concat(first, rest) => {
                    assert_eq!((first.start, first.end), (9, 10));
                    assert_eq!((rest.start, rest.end), (11, 18));
                }
                other => panic!("not a concatenation: {:?}", other),
            }
        }
        other => panic!("not a text assignment: {:?}", other),
    }
}

#[test]
fn lone_piece_is_a_leaf() {
    let statements = parse_source("Text t = word\nText u = $t$\n");
    match statements[0].get_expression() {
        ExpressionTypes::TextAssignment(_, value) => assert_eq!(text(value), "'word'"),
        other => panic!("not a text assignment: {:?}", other),
    }
    match statements[1].get_expression() {
        ExpressionTypes::TextAssignment(_, value) => {
            assert_eq!(text(value), "$t");
            assert_eq!((value.line, value.start, value.end), (2, 24, 25));
        }
        other => panic!("not a text assignment: {:?}", other),
    }
}

#[test]
fn declarations_without_value_get_defaults() {
    let statements = parse_source("Zahl a\nText s");
    assert_eq!(
        statements[0],
        Expression::new(
            1,
            0,
            4,
            ExpressionTypes::NumberAssignment(
                IdentifierExpression::new(1, 5, 6, "a".to_string()),
                NumberExpression::new(1, 0, 4, NumberExpressionTypes::Value(0)),
            ),
        )
    );
    assert_eq!(
        statements[1],
        Expression::new(
            2,
            7,
            11,
            ExpressionTypes::TextAssignment(
                IdentifierExpression::new(2, 12, 13, "s".to_string()),
                TextExpression::new(2, 7, 11, TextExpressionTypes::Value(String::new())),
            ),
        )
    );
}

#[test]
fn input_and_output_take_one_name() {
    let statements = parse_source("Input a\nOutput a\n");
    assert_eq!(
        statements[0],
        Expression::new(
            1,
            0,
            7,
            ExpressionTypes::InputStatement(IdentifierExpression::new(1, 6, 7, "a".to_string())),
        )
    );
    assert_eq!(
        statements[1],
        Expression::new(
            2,
            8,
            16,
            ExpressionTypes::OutputStatement(IdentifierExpression::new(2, 15, 16, "a".to_string())),
        )
    );
}

#[test]
fn missing_identifier_is_an_error() {
    let tokens = vec![
        token(TokenType::OUTPUT, "Output", 0, 6),
        token(TokenType::NEWLINE, "\n", 6, 7),
        token(TokenType::EOF, "", 7, 7),
    ];
    let err = Parser::new(tokens).parse().unwrap_err();
    assert_eq!(err.message(), "Expected identifier");
    assert_eq!((err.line(), err.start(), err.end()), (1, 6, 7));
    let tokens = vec![
        token(TokenType::ZAHL, "Zahl", 0, 4),
        token(TokenType::EQUAL, "=", 5, 6),
    ];
    let err = Parser::new(tokens).parse().unwrap_err();
    assert_eq!(err.message(), "Expected identifier");
}

#[test]
fn malformed_assignment_is_an_error() {
    let tokens = vec![
        token(TokenType::ZAHL, "Zahl", 0, 4),
        token(TokenType::IDENTIFIER, "a", 5, 6),
        token(TokenType::VALUE, "5", 7, 8),
        token(TokenType::EOF, "", 8, 8),
    ];
    let err = Parser::new(tokens).parse().unwrap_err();
    assert_eq!(err.message(), "Invalid Assignment");
    assert_eq!((err.line(), err.start(), err.end()), (1, 7, 8));
}

#[test]
fn end_of_tokens_in_a_statement_is_an_error() {
    let tokens = vec![token(TokenType::INPUT, "Input", 0, 5)];
    let err = Parser::new(tokens).parse().unwrap_err();
    assert_eq!(err.message(), "Unknown error while parsing. EOF expected!");
    assert_eq!((err.line(), err.start(), err.end()), (1, 0, 5));
    let tokens = vec![
        token(TokenType::ZAHL, "Zahl", 0, 4),
        token(TokenType::IDENTIFIER, "a", 5, 6),
        token(TokenType::EQUAL, "=", 7, 8),
        token(TokenType::VALUE, "5", 9, 10),
    ];
    let err = Parser::new(tokens).parse().unwrap_err();
    assert_eq!(err.message(), "Unknown error while parsing. EOF expected!");
    assert_eq!((err.start(), err.end()), (9, 10));
}

#[test]
fn empty_value_run_is_an_error() {
    let tokens = Lexer::new("Text t =\n").lex().unwrap();
    let err = Parser::new(tokens).parse().unwrap_err();
    assert_eq!(err.message(), "Expected string value");
    assert_eq!((err.line(), err.start(), err.end()), (1, 8, 9));
}

#[test]
fn missing_number_is_an_error() {
    let tokens = Lexer::new("Zahl a =\n").lex().unwrap();
    let err = Parser::new(tokens).parse().unwrap_err();
    assert_eq!(err.message(), "Error while parsing value!");
    let tokens = Lexer::new("Zahl a = 1 +\n").lex().unwrap();
    let err = Parser::new(tokens).parse().unwrap_err();
    assert_eq!(err.message(), "Error while parsing value!");
    assert_eq!((err.line(), err.start(), err.end()), (1, 12, 13));
}

#[test]
fn number_out_of_range_is_an_error() {
    let tokens = Lexer::new("Zahl a = 9223372036854775808\n").lex().unwrap();
    let err = Parser::new(tokens).parse().unwrap_err();
    assert_eq!(err.message(), "Could not parse number");
    assert_eq!((err.line(), err.start(), err.end()), (1, 9, 28));
}

#[test]
fn token_that_opens_no_statement_is_an_error() {
    let tokens = vec![
        token(TokenType::VALUE, "5", 0, 1),
        token(TokenType::EOF, "", 1, 1),
    ];
    let err = Parser::new(tokens).parse().unwrap_err();
    assert_eq!(err.message(), "Invalid instruction");
    assert_eq!((err.line(), err.start(), err.end()), (1, 0, 1));
}

#[test]
fn parsing_stops_at_eof() {
    let tokens = vec![
        token(TokenType::EOF, "", 0, 0),
        token(TokenType::VALUE, "5", 0, 1),
    ];
    assert_eq!(Parser::new(tokens).parse().unwrap(), Vec::new());
}

#[test]
fn parsing_twice_gives_the_same_statements() {
    let tokens = Lexer::new("Zahl a = 1\nOutput a\n").lex().unwrap();
    let mut parser = Parser::new(tokens);
    let first = parser.parse().unwrap();
    let second = parser.parse().unwrap();
    assert_eq!(first, second);
    assert_eq!(first.len(), 2);
}

#[test]
fn leaves_from_tokens() {
    let value = token(TokenType::VALUE, "12", 3, 5);
    let name = token(TokenType::IDENTIFIER, "n", 6, 7);
    let other = token(TokenType::EQUAL, "=", 8, 9);
    assert_eq!(
        NumberExpression::from_token(&value).unwrap(),
        NumberExpression::new(1, 3, 5, NumberExpressionTypes::Value(12))
    );
    assert_eq!(
        NumberExpression::from_token(&name).unwrap(),
        NumberExpression::new(
            1,
            6,
            7,
            NumberExpressionTypes::Identifier(IdentifierExpression::new(1, 6, 7, "n".to_string()))
        )
    );
    assert_eq!(
        NumberExpression::from_token(&other).unwrap_err().message(),
        "Error while parsing value!"
    );
    assert_eq!(
        NumberExpression::from_token(&token(TokenType::VALUE, "1x", 0, 2))
            .unwrap_err()
            .message(),
        "Could not parse number"
    );
    assert_eq!(
        TextExpression::from_token(&value).unwrap(),
        TextExpression::new(1, 3, 5, TextExpressionTypes::Value("12".to_string()))
    );
    assert_eq!(
        TextExpression::from_token(&name).unwrap(),
        TextExpression::new(
            1,
            6,
            7,
            TextExpressionTypes::Identifier(IdentifierExpression::new(1, 6, 7, "n".to_string()))
        )
    );
    let err = TextExpression::from_token(&other).unwrap_err();
    assert_eq!(err.message(), "Error while parsing value!");
    assert_eq!((err.line(), err.start(), err.end()), (1, 8, 9));
}

#[test]
fn join_spans_both_sides() {
    let left = TextExpression::new(1, 2, 4, TextExpressionTypes::Value("ab".to_string()));
    let right = TextExpression::new(
        1,
        5,
        8,
        TextExpressionTypes::Identifier(IdentifierExpression::new(1, 6, 7, "n".to_string())),
    );
    let joined = TextExpression::join(left, right);
    assert_eq!((joined.line, joined.start, joined.end), (1, 2, 8));
    assert!(!joined.get_expression().is_identifier());
    match joined.get_expression() {
        TextExpressionTypes::Concat(a, b) => {
            assert!(!a.get_expression().is_identifier());
            assert!(b.get_expression().is_identifier());
            let swapped = TextExpression::join(
                TextExpression::new(1, 5, 8, TextExpressionTypes::Identifier(
                    IdentifierExpression::new(1, 6, 7, "n".to_string()),
                )),
                TextExpression::new(1, 9, 10, TextExpressionTypes::Value("x".to_string())),
            );
            assert!(swapped.get_expression().is_identifier());
            let nested = TextExpression::join(
                swapped,
                TextExpression::new(1, 11, 12, TextExpressionTypes::Value("y".to_string())),
            );
            assert!(nested.get_expression().is_identifier());
        }
        other => panic!("not a concatenation: {:?}", other),
    }
}

#[test]
fn missing_name_in_the_source_is_a_parse_error() {
    let tokens = Lexer::new("Zahl a\nOutput\n").lex().unwrap();
    let err = Parser::new(tokens).parse().unwrap_err();
    assert_eq!(err.message(), "Expected identifier");
    assert_eq!((err.line(), err.start(), err.end()), (2, 13, 14));
    let tokens = Lexer::new("Zahl = 3\n").lex().unwrap();
    let err = Parser::new(tokens).parse().unwrap_err();
    assert_eq!(err.message(), "Expected identifier");
    assert_eq!((err.line(), err.start(), err.end()), (1, 5, 6));
    let tokens = Lexer::new("Input \n\nText").lex().unwrap_err();
    assert_eq!(tokens.message(), "Expected identifier name");
}
