use rslox::expression::{Expr, LiteralValue};
use rslox::interpreter::{
    Answer, ArithOp, CompareOp, Interpreter, InterpretOutcome, NumberQuery, RuntimeError,
};
use rslox::parser::{number_lexemes, Parser};
use rslox::scanner::Scanner;
use rslox::statement::Statement;
use rslox::token::{Token, TokenType};

fn answer_query(query: NumberQuery) -> Answer {
    match query {
        NumberQuery::Arithmetic { op, lhs, rhs } => {
            let a = f64::from_bits(lhs);
            let b = f64::from_bits(rhs);
            let result = match op {
                ArithOp::Add => a + b,
                ArithOp::Subtract => a - b,
                ArithOp::Multiply => a * b,
                ArithOp::Divide => a / b,
            };
            Answer::Bits(result.to_bits())
        }
        NumberQuery::Comparison { op, lhs, rhs } => {
            let a = f64::from_bits(lhs);
            let b = f64::from_bits(rhs);
            let truth = match op {
                CompareOp::Equal => a == b,
                CompareOp::NotEqual => a != b,
                CompareOp::Greater => a > b,
                CompareOp::GreaterEqual => a >= b,
                CompareOp::Less => a < b,
                CompareOp::LessEqual => a <= b,
            };
            Answer::Truth(truth)
        }
        NumberQuery::Negation { operand } => Answer::Bits((-f64::from_bits(operand)).to_bits()),
        NumberQuery::Text { operand } => Answer::Text(format!("{}", f64::from_bits(operand))),
    }
}

fn run_statements(interpreter: &mut Interpreter, statements: &Vec<Statement>) -> InterpretOutcome {
    let mut answers: Vec<Answer> = Vec::new();
    loop {
        match interpreter.interpret(statements, &answers) {
            InterpretOutcome::NeedAnswer { query } => answers.push(answer_query(query)),
            outcome => return outcome,
        }
    }
}

fn run_source(interpreter: &mut Interpreter, source: &str) -> InterpretOutcome {
    let mut scanner = Scanner::init(source);
    let tokens = scanner.scan_tokens().unwrap();
    let lexemes = number_lexemes(&tokens);
    let values: Vec<u64> = lexemes
        .iter()
        .map(|s| s.parse::<f64>().unwrap().to_bits())
        .collect();
    let mut parser = Parser::init(&tokens[..], &values[..]);
    let statements = parser.parse().unwrap();
    run_statements(interpreter, &statements)
}

#[test]
fn test_var_declaration_then_read() {
    // `var x = 1; x;` declares `x`, and `x` evaluates to the number 1.
    let mut interpreter = Interpreter::new();
    let outcome = run_source(&mut interpreter, "var x = 1; x;");
    assert!(matches!(outcome, InterpretOutcome::Done { .. }));
    assert_eq!(
        interpreter.environment().get("x"),
        Ok(LiteralValue::Number(1.0f64.to_bits()))
    );
}

#[test]
fn test_string_concatenation() {
    // `"a" + "b"` concatenates to `"ab"`.
    let statements = vec![Statement::Var(
        Token {
            line: 1,
            lexeme: String::from("joined"),
            token_type: TokenType::Identifier,
        },
        Some(Expr::Binary(
            Box::new(Expr::Literal(LiteralValue::String(String::from("a")))),
            Token {
                line: 1,
                lexeme: String::from("+"),
                token_type: TokenType::Plus,
            },
            Box::new(Expr::Literal(LiteralValue::String(String::from("b")))),
        )),
    )];
    let mut interpreter = Interpreter::new();
    let outcome = run_statements(&mut interpreter, &statements);
    assert!(matches!(outcome, InterpretOutcome::Done { .. }));
    assert_eq!(
        interpreter.environment().get("joined"),
        Ok(LiteralValue::String(String::from("ab")))
    );
}

#[test]
fn test_undefined_variable_fails() {
    let mut interpreter = Interpreter::new();
    let outcome = run_source(&mut interpreter, "ghost_name;");
    match outcome {
        InterpretOutcome::Failed { error, .. } => assert_eq!(
            error,
            RuntimeError::UndefinedVariable { name: String::from("ghost_name") }
        ),
        other => panic!("expected a failure, got {:?}", other),
    }
}

#[test]
fn test_uninitialized_variable_fails() {
    let mut interpreter = Interpreter::new();
    let outcome = run_source(&mut interpreter, "var x; x;");
    match outcome {
        InterpretOutcome::Failed { error, .. } => assert_eq!(
            error,
            RuntimeError::UninitializedVariable { name: String::from("x") }
        ),
        other => panic!("expected a failure, got {:?}", other),
    }
}

#[test]
fn test_arithmetic_precedence_in_evaluation() {
    let mut interpreter = Interpreter::new();
    let outcome = run_source(&mut interpreter, "print 1 + 2 * 3;");
    match outcome {
        InterpretOutcome::Done { output } => assert_eq!(output, vec![String::from("7")]),
        other => panic!("expected completion, got {:?}", other),
    }
}

#[test]
fn test_division_by_zero_follows_ieee() {
    // Division by zero produces infinity, not a raised error.
    let mut interpreter = Interpreter::new();
    let outcome = run_source(&mut interpreter, "print 1 / 0;");
    match outcome {
        InterpretOutcome::Done { output } => assert_eq!(output, vec![String::from("inf")]),
        other => panic!("expected completion, got {:?}", other),
    }
}

#[test]
fn test_print_string_is_quoted() {
    let mut interpreter = Interpreter::new();
    let outcome = run_source(&mut interpreter, "print \"hi\";");
    match outcome {
        InterpretOutcome::Done { output } => assert_eq!(output, vec![String::from("\"hi\"")]),
        other => panic!("expected completion, got {:?}", other),
    }
}

#[test]
fn test_print_booleans_and_nil() {
    let mut interpreter = Interpreter::new();
    let outcome = run_source(&mut interpreter, "print true == false; print nil;");
    match outcome {
        InterpretOutcome::Done { output } => {
            assert_eq!(output, vec![String::from("false"), String::from("nil")])
        }
        other => panic!("expected completion, got {:?}", other),
    }
}

#[test]
fn test_number_comparison() {
    let mut interpreter = Interpreter::new();
    let outcome = run_source(&mut interpreter, "print 1 < 2; print 2 <= 1; print 1 != 2;");
    match outcome {
        InterpretOutcome::Done { output } => assert_eq!(
            output,
            vec![
                String::from("true"),
                String::from("false"),
                String::from("true")
            ]
        ),
        other => panic!("expected completion, got {:?}", other),
    }
}

#[test]
fn test_unary_negation_and_not() {
    let mut interpreter = Interpreter::new();
    let outcome = run_source(&mut interpreter, "print -(1 + 2); print !true;");
    match outcome {
        InterpretOutcome::Done { output } => {
            assert_eq!(output, vec![String::from("-3"), String::from("false")])
        }
        other => panic!("expected completion, got {:?}", other),
    }
}

#[test]
fn test_type_mismatch_fails() {
    let mut interpreter = Interpreter::new();
    let outcome = run_source(&mut interpreter, "1 + \"a\";");
    match outcome {
        InterpretOutcome::Failed { error, .. } => {
            assert!(matches!(error, RuntimeError::TypeMismatch { .. }))
        }
        other => panic!("expected a failure, got {:?}", other),
    }
}

#[test]
fn test_unsupported_operator_fails() {
    let mut interpreter = Interpreter::new();
    for source in ["true + false;", "\"a\" == \"a\";", "-\"a\";", "!3;", "-nil;"] {
        let outcome = run_source(&mut interpreter, source);
        match outcome {
            InterpretOutcome::Failed { error, .. } => {
                assert!(matches!(error, RuntimeError::UnsupportedOperation { .. }))
            }
            other => panic!("expected a failure for {:?}, got {:?}", source, other),
        }
    }
}

#[test]
fn test_variables_persist_across_runs() {
    // An interactive driver reuses the same environment chain across lines,
    // so variables persist from one run to the next.
    let mut interpreter = Interpreter::new();
    assert!(matches!(
        run_source(&mut interpreter, "var x = 2;"),
        InterpretOutcome::Done { .. }
    ));
    let outcome = run_source(&mut interpreter, "print x * 21;");
    match outcome {
        InterpretOutcome::Done { output } => assert_eq!(output, vec![String::from("42")]),
        other => panic!("expected completion, got {:?}", other),
    }
}

#[test]
fn test_error_halts_remaining_statements() {
    // The first fatal error halts the rest of the run: nothing after it is
    // printed, but what was printed before it is kept.
    let mut interpreter = Interpreter::new();
    let outcome = run_source(&mut interpreter, "print \"x\"; missing; print \"y\";");
    match outcome {
        InterpretOutcome::Failed { output, error } => {
            assert_eq!(output, vec![String::from("\"x\"")]);
            assert_eq!(
                error,
                RuntimeError::UndefinedVariable { name: String::from("missing") }
            );
        }
        other => panic!("expected a failure, got {:?}", other),
    }
}

#[test]
fn test_var_redeclaration_overwrites() {
    let mut interpreter = Interpreter::new();
    let outcome = run_source(&mut interpreter, "var x = 1; var x = \"s\";");
    assert!(matches!(outcome, InterpretOutcome::Done { .. }));
    assert_eq!(
        interpreter.environment().get("x"),
        Ok(LiteralValue::String(String::from("s")))
    );
}
