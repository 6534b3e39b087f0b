use redlang::lexer::{Lexer, Token, TokenType};

fn kinds(tokens: &[Token]) -> Vec<TokenType> {
    tokens.iter().map(|t| t.token_type).collect()
}

fn lexemes(tokens: &[Token]) -> Vec<&str> {
    tokens.iter().map(|t| t.value.as_str()).collect()
}

#[test]
fn empty_source_gives_eof() {
    let tokens = Lexer::new("").lex().unwrap();
    assert_eq!(kinds(&tokens), vec![TokenType::EOF]);
    assert_eq!((tokens[0].line, tokens[0].start, tokens[0].end), (1, 0, 0));
}

#[test]
fn blank_lines_give_newlines() {
    let tokens = Lexer::new("\n\n  \n").lex().unwrap();
    assert_eq!(
        kinds(&tokens),
        vec![TokenType::NEWLINE, TokenType::NEWLINE, TokenType::NEWLINE, TokenType::EOF]
    );
    assert_eq!(tokens[2].line, 3);
    assert_eq!((tokens[2].start, tokens[2].end), (4, 5));
    assert_eq!(tokens[3].line, 4);
}

#[test]
fn number_declaration_tokens() {
    let tokens = Lexer::new("Zahl a = 2 + 3 * 4\n").lex().unwrap();
    assert_eq!(
        kinds(&tokens),
        vec![
            TokenType::ZAHL,
            TokenType::IDENTIFIER,
            TokenType::EQUAL,
            TokenType::VALUE,
            TokenType::ADD,
            TokenType::VALUE,
            TokenType::MULT,
            TokenType::VALUE,
            TokenType::NEWLINE,
            TokenType::EOF
        ]
    );
    assert_eq!(
        lexemes(&tokens),
        vec!["Zahl", "a", "=", "2", "+", "3", "*", "4", "\n", ""]
    );
    assert_eq!((tokens[3].start, tokens[3].end), (9, 10));
}

#[test]
fn text_declaration_tokens() {
    let tokens = Lexer::new("Text a = hello $n$ you$$ too").lex().unwrap();
    assert_eq!(
        kinds(&tokens),
        vec![
            TokenType::TEXT,
            TokenType::IDENTIFIER,
            TokenType::EQUAL,
            TokenType::VALUE,
            TokenType::IDENTIFIER,
            TokenType::VALUE,
            TokenType::VALUE,
            TokenType::EOF
        ]
    );
    assert_eq!(
        lexemes(&tokens),
        vec!["Text", "a", "=", "hello", "n", "you$", "too", ""]
    );
}

#[test]
fn offsets_count_characters() {
    let tokens = Lexer::new("Text ä = grüß dich\nOutput ä\n").lex().unwrap();
    assert_eq!(lexemes(&tokens)[3], "grüß");
    assert_eq!((tokens[3].start, tokens[3].end), (9, 13));
    assert_eq!((tokens[4].start, tokens[4].end), (14, 18));
    assert_eq!(tokens[6].token_type, TokenType::OUTPUT);
    assert_eq!((tokens[6].line, tokens[6].start, tokens[6].end), (2, 19, 25));
}

#[test]
fn tokens_come_in_source_order() {
    let tokens = Lexer::new("Zahl a = 1 + $b$\n\nText t = x $a$ y\nInput q\nOutput q").lex().unwrap();
    for pair in tokens.windows(2) {
        assert!((pair[0].line, pair[0].start) <= (pair[1].line, pair[1].start));
        assert!(pair[0].end <= pair[1].start);
    }
    assert_eq!(tokens.last().unwrap().token_type, TokenType::EOF);
}

#[test]
fn unknown_keyword_is_an_error() {
    let err = Lexer::new("Zahl a\nPrint a\n").lex().unwrap_err();
    assert_eq!(err.message(), "Expected Text, Zahl, Output or Input!");
    assert_eq!((err.line(), err.start(), err.end()), (2, 7, 12));
}

#[test]
fn missing_equal_is_an_error() {
    let err = Lexer::new("Zahl a 5\n").lex().unwrap_err();
    assert_eq!(err.message(), "Expected Assignment with '=' ");
    assert_eq!((err.line(), err.start(), err.end()), (1, 7, 8));
}

#[test]
fn unterminated_reference_is_an_error() {
    let err = Lexer::new("Text a = $name\n").lex().unwrap_err();
    assert_eq!(err.message(), "Expected closing $ for variable");
    assert_eq!((err.line(), err.start(), err.end()), (1, 9, 14));
    let err = Lexer::new("Zahl a = $name").lex().unwrap_err();
    assert_eq!(err.message(), "Expected closing $ for variable");
}

#[test]
fn double_dollar_after_reference_is_an_error() {
    let err = Lexer::new("Text a = $n$$\n").lex().unwrap_err();
    assert_eq!(err.message(), "Found $$ but expected $ because of present variable");
    assert_eq!((err.line(), err.start(), err.end()), (1, 11, 13));
    let err = Lexer::new("Zahl a = $n$$\n").lex().unwrap_err();
    assert_eq!(err.message(), "Found $$ but expected $ because of present variable");
}

#[test]
fn missing_operator_is_an_error() {
    let err = Lexer::new("Zahl a = 1 2\n").lex().unwrap_err();
    assert_eq!(err.message(), "Expected Math Operator (+,-,*,/)");
    assert_eq!((err.line(), err.start(), err.end()), (1, 11, 12));
}

#[test]
fn missing_term_is_an_error() {
    let err = Lexer::new("Zahl a = x\n").lex().unwrap_err();
    assert_eq!(err.message(), "Expected digit or variable in number token");
    assert_eq!((err.line(), err.start(), err.end()), (1, 9, 10));
}

#[test]
fn end_of_input_after_keyword_is_an_error() {
    let err = Lexer::new("Output").lex().unwrap_err();
    assert_eq!(err.message(), "Expected identifier name");
    assert_eq!((err.line(), err.start(), err.end()), (1, 6, 6));
}

#[test]
fn rest_after_output_is_an_error() {
    let err = Lexer::new("Output a b\n").lex().unwrap_err();
    assert_eq!(err.message(), "Unknown token at this position!");
    assert_eq!((err.line(), err.start(), err.end()), (1, 9, 10));
}

#[test]
fn name_may_start_with_a_digit() {
    let tokens = Lexer::new("Zahl 1st_x = 1").lex().unwrap();
    assert_eq!(lexemes(&tokens)[1], "1st_x");
}

#[test]
fn lexing_twice_gives_the_same_tokens() {
    let mut lexer = Lexer::new("Zahl a = 1\n");
    let first = lexer.lex().unwrap();
    let second = lexer.lex().unwrap();
    assert_eq!(lexemes(&first), lexemes(&second));
}

#[test]
fn whitespace_of_any_kind_separates() {
    let tokens = Lexer::new("\tZahl\u{a0}zähler_1\t=\t12\t\u{2003}+ $x$\n").lex().unwrap();
    assert_eq!(
        lexemes(&tokens),
        vec!["Zahl", "zähler_1", "=", "12", "+", "x", "\n", ""]
    );
    assert_eq!(tokens[0].start, 1);
    assert_eq!(tokens[5].token_type, TokenType::IDENTIFIER);
}

#[test]
fn operators_need_no_spaces() {
    let tokens = Lexer::new("Zahl a = 1+$b$*3/4-5").lex().unwrap();
    assert_eq!(
        kinds(&tokens)[3..],
        [
            TokenType::VALUE,
            TokenType::ADD,
            TokenType::IDENTIFIER,
            TokenType::MULT,
            TokenType::VALUE,
            TokenType::DIV,
            TokenType::VALUE,
            TokenType::SUB,
            TokenType::VALUE,
            TokenType::EOF
        ]
    );
}

#[test]
fn declaration_may_end_after_the_equal_sign() {
    let tokens = Lexer::new("Zahl a =\nText b =   \n").lex().unwrap();
    assert_eq!(
        kinds(&tokens),
        vec![
            TokenType::ZAHL,
            TokenType::IDENTIFIER,
            TokenType::EQUAL,
            TokenType::NEWLINE,
            TokenType::TEXT,
            TokenType::IDENTIFIER,
            TokenType::EQUAL,
            TokenType::NEWLINE,
            TokenType::EOF
        ]
    );
}

#[test]
fn missing_name_gives_no_token() {
    let tokens = Lexer::new("Output\nZahl = 3\nText \nInput\t\n").lex().unwrap();
    assert_eq!(
        kinds(&tokens),
        vec![
            TokenType::OUTPUT,
            TokenType::NEWLINE,
            TokenType::ZAHL,
            TokenType::EQUAL,
            TokenType::VALUE,
            TokenType::NEWLINE,
            TokenType::TEXT,
            TokenType::NEWLINE,
            TokenType::INPUT,
            TokenType::NEWLINE,
            TokenType::EOF
        ]
    );
    assert_eq!(
        lexemes(&tokens),
        vec!["Output", "\n", "Zahl", "=", "3", "\n", "Text", "\n", "Input", "\n", ""]
    );
}

#[test]
fn identifier_tokens_behind_keywords_are_not_empty() {
    let tokens = Lexer::new("Zahl a\nText\nOutput b\nInput\nZahl =\n").lex().unwrap();
    for pair in tokens.windows(2) {
        if pair[1].token_type == TokenType::IDENTIFIER {
            assert!(!pair[1].value.is_empty());
        }
    }
    let err = Lexer::new("Output !x\n").lex().unwrap_err();
    assert_eq!(err.message(), "Unknown token at this position!");
    assert_eq!((err.start(), err.end()), (7, 8));
    let err = Lexer::new("Zahl !x\n").lex().unwrap_err();
    assert_eq!(err.message(), "Expected Assignment with '=' ");
}

#[test]
fn keyword_at_the_end_of_the_source_runs_out_of_input() {
    for source in ["Zahl", "Text ", "Input\t ", "Zahl a\nOutput"] {
        let err = Lexer::new(source).lex().unwrap_err();
        assert_eq!(err.message(), "Expected identifier name");
        let end = source.chars().count();
        assert_eq!((err.start(), err.end()), (end, end));
    }
}

#[test]
fn dollar_signs_in_text() {
    let tokens = Lexer::new("Text a = $$ a$$b $$$c$ $d$e\n").lex().unwrap();
    assert_eq!(
        lexemes(&tokens)[3..],
        ["$", "a$", "b", "$", "c", "d", "e", "\n", ""]
    );
    assert_eq!(
        kinds(&tokens)[3..],
        [
            TokenType::VALUE,
            TokenType::VALUE,
            TokenType::VALUE,
            TokenType::VALUE,
            TokenType::IDENTIFIER,
            TokenType::IDENTIFIER,
            TokenType::VALUE,
            TokenType::NEWLINE,
            TokenType::EOF
        ]
    );
}

#[test]
fn first_error_wins() {
    let err = Lexer::new("Zahl a = 1 2\nNope\n").lex().unwrap_err();
    assert_eq!(err.line(), 1);
    let err = Lexer::new("Zahl a = 1\n\n\nText b = $x\nNope\n").lex().unwrap_err();
    assert_eq!(err.line(), 4);
    assert_eq!((err.start(), err.end()), (22, 24));
}
