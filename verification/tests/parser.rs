use rslox::expression::{Expr, LiteralValue};
use rslox::parser::{number_lexemes, Parser, SyntaxError};
use rslox::scanner::Scanner;
use rslox::statement::Statement;
use rslox::token::{Token, TokenType};

#[test]
fn test_binary() {
    let tokens = vec![
        Token {
            line: 1,
            lexeme: String::from("2.0"),
            token_type: TokenType::Number,
        },
        Token {
            line: 1,
            lexeme: String::from("+"),
            token_type: TokenType::Plus,
        },
        Token {
            line: 1,
            lexeme: String::from("3.0"),
            token_type: TokenType::Number,
        },
        Token {
            line: 1,
            lexeme: String::from(";"),
            token_type: TokenType::Semicolon,
        },
    ];
    let values = vec![2.0f64.to_bits(), 3.0f64.to_bits()];
    let expected = vec![Statement::Expression(Expr::Binary(
        Box::new(Expr::Literal(LiteralValue::Number(2.0f64.to_bits()))),
        Token {
            line: 1,
            lexeme: String::from("+"),
            token_type: TokenType::Plus,
        },
        Box::new(Expr::Literal(LiteralValue::Number(3.0f64.to_bits()))),
    ))];

    let mut parser = Parser::init(&tokens[..], &values[..]);
    assert_eq!(Ok(expected), parser.parse());
}

#[test]
fn test_nested_binary() {
    let tokens = vec![
        Token {
            lexeme: String::from("2"),
            token_type: TokenType::Number,
            line: 1,
        },
        Token {
            lexeme: String::from("/"),
            token_type: TokenType::Slash,
            line: 1,
        },
        Token {
            lexeme: String::from("2"),
            token_type: TokenType::Number,
            line: 1,
        },
        Token {
            lexeme: String::from(";"),
            token_type: TokenType::Semicolon,
            line: 1,
        },
        Token {
            lexeme: String::from(""),
            token_type: TokenType::Eof,
            line: 2,
        },
    ];
    let values = vec![2.0f64.to_bits(), 5.0f64.to_bits()];

    let expected = vec![Statement::Expression(Expr::Binary(
        Box::new(Expr::Literal(LiteralValue::Number(2.0f64.to_bits()))),
        Token {
            lexeme: String::from("/"),
            token_type: TokenType::Slash,
            line: 1,
        },
        Box::new(Expr::Literal(LiteralValue::Number(5.0f64.to_bits()))),
    ))];

    let mut parser = Parser::init(&tokens[..], &values[..]);
    assert_eq!(Ok(expected), parser.parse());
}

#[test]
fn test_unary() {
    let tokens = vec![
        Token {
            line: 1,
            lexeme: String::from("-"),
            token_type: TokenType::Minus,
        },
        Token {
            line: 1,
            lexeme: String::from("10.0"),
            token_type: TokenType::Number,
        },
        Token {
            line: 1,
            lexeme: String::from(";"),
            token_type: TokenType::Semicolon,
        },
    ];
    let values = vec![10.0f64.to_bits()];

    let expected = vec![Statement::Expression(Expr::Unary(
        Token {
            line: 1,
            lexeme: String::from("-"),
            token_type: TokenType::Minus,
        },
        Box::new(Expr::Literal(LiteralValue::Number(10.0f64.to_bits()))),
    ))];

    let mut parser = Parser::init(&tokens[..], &values[..]);
    assert_eq!(Ok(expected), parser.parse());
}

#[test]
fn test_nested_unary() {
    let tokens = vec![
        Token {
            line: 1,
            lexeme: String::from("-"),
            token_type: TokenType::Minus,
        },
        Token {
            line: 1,
            lexeme: String::from("-"),
            token_type: TokenType::Minus,
        },
        Token {
            line: 1,
            lexeme: String::from("10.0"),
            token_type: TokenType::Number,
        },
        Token {
            line: 1,
            lexeme: String::from(";"),
            token_type: TokenType::Semicolon,
        },
    ];
    let values = vec![10.0f64.to_bits()];

    let expected = vec![Statement::Expression(Expr::Unary(
        Token {
            line: 1,
            lexeme: String::from("-"),
            token_type: TokenType::Minus,
        },
        Box::new(Expr::Unary(
            Token {
                line: 1,
                lexeme: String::from("-"),
                token_type: TokenType::Minus,
            },
            Box::new(Expr::Literal(LiteralValue::Number(10.0f64.to_bits()))),
        )),
    ))];

    let mut parser = Parser::init(&tokens[..], &values[..]);
    assert_eq!(Ok(expected), parser.parse());
}

#[test]
fn test_var_declaration_with_initialization() {
    let tokens = vec![
        Token {
            line: 1,
            lexeme: String::from("var"),
            token_type: TokenType::Var,
        },
        Token {
            line: 1,
            lexeme: String::from("greeting"),
            token_type: TokenType::Identifier,
        },
        Token {
            line: 1,
            lexeme: String::from("="),
            token_type: TokenType::Equal,
        },
        Token {
            line: 1,
            lexeme: String::from("\"hello!\""),
            token_type: TokenType::StringLiteral,
        },
        Token {
            line: 1,
            lexeme: String::from(";"),
            token_type: TokenType::Semicolon,
        },
    ];
    let values: Vec<u64> = vec![];

    let expected = vec![Statement::Var(
        Token {
            line: 1,
            lexeme: String::from("greeting"),
            token_type: TokenType::Identifier,
        },
        Some(Expr::Literal(LiteralValue::String(String::from("hello!")))),
    )];

    let mut parser = Parser::init(&tokens[..], &values[..]);
    assert_eq!(Ok(expected), parser.parse());
}

fn scan_and_parse(source: &str) -> Result<Vec<Statement>, SyntaxError> {
    let mut scanner = Scanner::init(source);
    let tokens = scanner.scan_tokens().unwrap();
    let lexemes = number_lexemes(&tokens);
    let values: Vec<u64> = lexemes
        .iter()
        .map(|s| s.parse::<f64>().unwrap().to_bits())
        .collect();
    let mut parser = Parser::init(&tokens[..], &values[..]);
    parser.parse()
}

#[test]
fn test_multiplication_binds_tighter_than_addition() {
    // `2 + 3 * 4;` parses with `*` bound tighter than `+`.
    let parsed = scan_and_parse("2 + 3 * 4;").unwrap();
    let expected = vec![Statement::Expression(Expr::Binary(
        Box::new(Expr::Literal(LiteralValue::Number(2.0f64.to_bits()))),
        Token {
            line: 1,
            lexeme: String::from("+"),
            token_type: TokenType::Plus,
        },
        Box::new(Expr::Binary(
            Box::new(Expr::Literal(LiteralValue::Number(3.0f64.to_bits()))),
            Token {
                line: 1,
                lexeme: String::from("*"),
                token_type: TokenType::Star,
            },
            Box::new(Expr::Literal(LiteralValue::Number(4.0f64.to_bits()))),
        )),
    ))];
    assert_eq!(expected, parsed);
}

#[test]
fn test_equal_precedence_is_left_associative() {
    let parsed = scan_and_parse("1 - 2 - 3;").unwrap();
    let expected = vec![Statement::Expression(Expr::Binary(
        Box::new(Expr::Binary(
            Box::new(Expr::Literal(LiteralValue::Number(1.0f64.to_bits()))),
            Token {
                line: 1,
                lexeme: String::from("-"),
                token_type: TokenType::Minus,
            },
            Box::new(Expr::Literal(LiteralValue::Number(2.0f64.to_bits()))),
        )),
        Token {
            line: 1,
            lexeme: String::from("-"),
            token_type: TokenType::Minus,
        },
        Box::new(Expr::Literal(LiteralValue::Number(3.0f64.to_bits()))),
    ))];
    assert_eq!(expected, parsed);
}

#[test]
fn test_grouping_overrides_precedence() {
    let parsed = scan_and_parse("(2 + 3) * 4;").unwrap();
    let expected = vec![Statement::Expression(Expr::Binary(
        Box::new(Expr::Grouping(Box::new(Expr::Binary(
            Box::new(Expr::Literal(LiteralValue::Number(2.0f64.to_bits()))),
            Token {
                line: 1,
                lexeme: String::from("+"),
                token_type: TokenType::Plus,
            },
            Box::new(Expr::Literal(LiteralValue::Number(3.0f64.to_bits()))),
        )))),
        Token {
            line: 1,
            lexeme: String::from("*"),
            token_type: TokenType::Star,
        },
        Box::new(Expr::Literal(LiteralValue::Number(4.0f64.to_bits()))),
    ))];
    assert_eq!(expected, parsed);
}

#[test]
fn test_missing_semicolon_is_fatal() {
    let result = scan_and_parse("1 + 2");
    assert_eq!(result, Err(SyntaxError::MissingSemicolon { line: 1 }));
}

#[test]
fn test_missing_closing_paren_is_fatal() {
    let result = scan_and_parse("(1 + 2;");
    assert_eq!(result, Err(SyntaxError::MissingClosingParen { line: 1 }));
}

#[test]
fn test_var_without_name_is_fatal() {
    let result = scan_and_parse("var 1;");
    assert_eq!(result, Err(SyntaxError::ExpectedVariableName { line: 1 }));
}

#[test]
fn test_unexpected_token_is_fatal() {
    let result = scan_and_parse("+ 1;");
    assert_eq!(
        result,
        Err(SyntaxError::UnexpectedToken {
            token: Token {
                line: 1,
                lexeme: String::from("+"),
                token_type: TokenType::Plus,
            }
        })
    );
}

#[test]
fn test_one_bad_statement_fails_whole_parse() {
    // No recovery across statements: a later malformed statement fails the
    // whole parse, with no partial result.
    let result = scan_and_parse("1; var 2;");
    assert_eq!(result, Err(SyntaxError::ExpectedVariableName { line: 1 }));
}

#[test]
fn test_print_parse_round_trip() {
    // Printing a parsed program back to source-like text and re-parsing it
    // yields a structurally equal tree (all tokens on line 1).
    let source = "var x = 1.5; print (x + 2) * 3 >= 4 == !done != nil; \"a b\" + \"c\";";
    let mut scanner = Scanner::init(source);
    let tokens = scanner.scan_tokens().unwrap();
    let lexemes = number_lexemes(&tokens);
    let values: Vec<u64> = lexemes
        .iter()
        .map(|s| s.parse::<f64>().unwrap().to_bits())
        .collect();
    let mut parser = Parser::init(&tokens[..], &values[..]);
    let statements = parser.parse().unwrap();

    let printed_tokens = rslox::printer::print_tokens(&statements, &lexemes);
    let text = rslox::printer::print_text(&printed_tokens);

    let mut rescanner = Scanner::init(&text);
    let retokens = rescanner.scan_tokens().unwrap();
    let relexemes = number_lexemes(&retokens);
    assert_eq!(relexemes, lexemes);
    let revalues: Vec<u64> = relexemes
        .iter()
        .map(|s| s.parse::<f64>().unwrap().to_bits())
        .collect();
    let mut reparser = Parser::init(&retokens[..], &revalues[..]);
    let restatements = reparser.parse().unwrap();

    assert_eq!(statements, restatements);
}

#[test]
fn test_exhausted_tokens_is_fatal() {
    // A token sequence that runs out (no end-of-input marker) where a token
    // was required fails the parse.
    let tokens = vec![Token {
        line: 1,
        lexeme: String::from("1"),
        token_type: TokenType::Number,
    }];
    let values = vec![1.0f64.to_bits()];
    let mut parser = Parser::init(&tokens[..], &values[..]);
    assert_eq!(parser.parse(), Err(SyntaxError::UnexpectedEnd));
}

#[test]
fn test_parse_empty_token_sequence() {
    let tokens: Vec<Token> = vec![];
    let values: Vec<u64> = vec![];
    let mut parser = Parser::init(&tokens[..], &values[..]);
    assert_eq!(parser.parse(), Ok(vec![]));
}
