use rslox::scanner::{ScanWarning, Scanner, TokenizerError};
use rslox::token::{Token, TokenType};

#[test]
fn test_scan_tokens() {
    let input = "<>(){   }\"hello!\"
    // and a comment!
    !=
    24)
    102.56
    var string_val = 102.to_string()
    /* multi-line
    comment goes here !!!
    and then ends here? */ var test;
    +
    ";

    let expected_output = vec![
        Token {
            line: 1,
            lexeme: String::from("<"),
            token_type: TokenType::Less,
        },
        Token {
            line: 1,
            lexeme: String::from(">"),
            token_type: TokenType::Greater,
        },
        Token {
            line: 1,
            lexeme: String::from("("),
            token_type: TokenType::LeftParen,
        },
        Token {
            line: 1,
            lexeme: String::from(")"),
            token_type: TokenType::RightParen,
        },
        Token {
            line: 1,
            lexeme: String::from("{"),
            token_type: TokenType::LeftBrace,
        },
        Token {
            line: 1,
            lexeme: String::from("}"),
            token_type: TokenType::RightBrace,
        },
        Token {
            line: 1,
            lexeme: String::from("\"hello!\""),
            token_type: TokenType::StringLiteral,
        },
        Token {
            line: 3,
            lexeme: String::from("!="),
            token_type: TokenType::BangEqual,
        },
        Token {
            line: 4,
            lexeme: String::from("24"),
            token_type: TokenType::Number,
        },
        Token {
            line: 4,
            lexeme: String::from(")"),
            token_type: TokenType::RightParen,
        },
        Token {
            line: 5,
            lexeme: String::from("102.56"),
            token_type: TokenType::Number,
        },
        Token {
            line: 6,
            lexeme: String::from("var"),
            token_type: TokenType::Var,
        },
        Token {
            line: 6,
            lexeme: String::from("string_val"),
            token_type: TokenType::Identifier,
        },
        Token {
            line: 6,
            lexeme: String::from("="),
            token_type: TokenType::Equal,
        },
        Token {
            line: 6,
            lexeme: String::from("102"),
            token_type: TokenType::Number,
        },
        Token {
            line: 6,
            lexeme: String::from("."),
            token_type: TokenType::Period,
        },
        Token {
            line: 6,
            lexeme: String::from("to_string"),
            token_type: TokenType::Identifier,
        },
        Token {
            line: 6,
            lexeme: String::from("("),
            token_type: TokenType::LeftParen,
        },
        Token {
            line: 6,
            lexeme: String::from(")"),
            token_type: TokenType::RightParen,
        },
        Token {
            line: 9,
            lexeme: String::from("var"),
            token_type: TokenType::Var,
        },
        Token {
            line: 9,
            lexeme: String::from("test"),
            token_type: TokenType::Identifier,
        },
        Token {
            line: 9,
            lexeme: String::from(";"),
            token_type: TokenType::Semicolon,
        },
        Token {
            line: 10,
            lexeme: String::from("+"),
            token_type: TokenType::Plus,
        },
        Token {
            line: 11,
            lexeme: String::from(""),
            token_type: TokenType::Eof,
        },
    ];

    let mut scanner = Scanner::init(input);
    let actual_output = scanner.scan_tokens().unwrap();

    assert_eq!(expected_output, actual_output);
}

#[test]
fn test_scan_tokens_with_unterminated_string() {
    let input = "<>(){   }\"hello!\
    \
    // and a comment!
    !=   \
    23";

    let mut scanner = Scanner::init(input);
    let result = scanner.scan_tokens();
    assert!(matches!(result, Err(TokenizerError::UnterminatedString { .. })));
}

#[test]
fn test_scan_one_plus_two() {
    // `1+2` yields a number, a plus, a number and the end-of-input marker,
    // each tagged line 1.
    let mut scanner = Scanner::init("1+2");
    let tokens = scanner.scan_tokens().unwrap();
    let expected = vec![
        Token {
            line: 1,
            lexeme: String::from("1"),
            token_type: TokenType::Number,
        },
        Token {
            line: 1,
            lexeme: String::from("+"),
            token_type: TokenType::Plus,
        },
        Token {
            line: 1,
            lexeme: String::from("2"),
            token_type: TokenType::Number,
        },
        Token {
            line: 1,
            lexeme: String::from(""),
            token_type: TokenType::Eof,
        },
    ];
    assert_eq!(expected, tokens);
}

#[test]
fn test_scan_unterminated_string_fails() {
    let mut scanner = Scanner::init("\"abc");
    let result = scanner.scan_tokens();
    assert_eq!(result, Err(TokenizerError::UnterminatedString { line: 1 }));
}

#[test]
fn test_unknown_character_warns_and_continues() {
    let mut scanner = Scanner::init("1 @ 2");
    let tokens = scanner.scan_tokens().unwrap();
    let kinds: Vec<TokenType> = tokens.iter().map(|t| t.token_type).collect();
    assert_eq!(
        kinds,
        vec![TokenType::Number, TokenType::Number, TokenType::Eof]
    );
    assert_eq!(
        scanner.warnings(),
        &vec![ScanWarning { character: '@', line: 1 }]
    );
}

#[test]
fn test_unterminated_block_comment_is_silently_accepted() {
    // An unterminated block comment consumes to end of input with no error,
    // while an unterminated string is fatal: the asymmetry is kept as is.
    let mut scanner = Scanner::init("1 /* no terminator\n anywhere");
    let tokens = scanner.scan_tokens().unwrap();
    let kinds: Vec<TokenType> = tokens.iter().map(|t| t.token_type).collect();
    assert_eq!(kinds, vec![TokenType::Number, TokenType::Eof]);
}

#[test]
fn test_number_then_period_keeps_source_order() {
    // A `.` after digits that no digit follows is its own token, after the
    // number token, in source order.
    let mut scanner = Scanner::init("1.");
    let tokens = scanner.scan_tokens().unwrap();
    let expected = vec![
        Token {
            line: 1,
            lexeme: String::from("1"),
            token_type: TokenType::Number,
        },
        Token {
            line: 1,
            lexeme: String::from("."),
            token_type: TokenType::Period,
        },
        Token {
            line: 1,
            lexeme: String::from(""),
            token_type: TokenType::Eof,
        },
    ];
    assert_eq!(expected, tokens);
}

#[test]
fn test_string_with_newline_counts_lines() {
    let mut scanner = Scanner::init("\"a\nb\" 2");
    let tokens = scanner.scan_tokens().unwrap();
    assert_eq!(tokens[0].token_type, TokenType::StringLiteral);
    assert_eq!(tokens[0].lexeme, "\"a\nb\"");
    assert_eq!(tokens[0].line, 2);
    assert_eq!(tokens[1].token_type, TokenType::Number);
    assert_eq!(tokens[1].line, 2);
}

#[test]
fn test_rescan_of_joined_lexemes_keeps_kinds() {
    // Re-scanning the space-joined lexemes of a scan yields the same kinds
    // and lexemes again (line numbers aside).
    let source = "var x = 1.5; // note\nprint (x + 2) * 3 >= \"a b\";";
    let mut scanner = Scanner::init(source);
    let tokens = scanner.scan_tokens().unwrap();

    let mut joined = String::new();
    for t in tokens.iter().take(tokens.len() - 1) {
        joined.push_str(&t.lexeme);
        joined.push(' ');
    }

    let mut rescanner = Scanner::init(&joined);
    let rescanned = scanner_tokens_of(&mut rescanner);
    assert_eq!(rescanned.len(), tokens.len());
    for (a, b) in rescanned.iter().zip(tokens.iter()) {
        assert_eq!(a.token_type, b.token_type);
        assert_eq!(a.lexeme, b.lexeme);
    }
}

fn scanner_tokens_of(scanner: &mut Scanner) -> Vec<Token> {
    scanner.scan_tokens().unwrap()
}

#[test]
fn test_scan_empty_source() {
    let mut scanner = Scanner::init("");
    let tokens = scanner.scan_tokens().unwrap();
    let expected = vec![Token {
        line: 1,
        lexeme: String::from(""),
        token_type: TokenType::Eof,
    }];
    assert_eq!(expected, tokens);
}
