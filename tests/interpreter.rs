use chai::error::ChaiError;
use chai::expr::{Expr, ExprKind, Value};
use chai::interpreter::{execute, interpret_program, mismatch_message};
use chai::lexer::Lexer;
use chai::parser::Parser;

fn at(kind: ExprKind, column: usize) -> Expr {
    Expr { kind, source: "prog.chai".to_string(), position: (0, column) }
}

fn run_text(text: &str) -> (Vec<String>, Result<(), ChaiError>) {
    let mut lexer =
        Lexer::from_source_path(&"prog.chai".to_string(), Some(text.to_string())).unwrap();
    let tokens = lexer.collect_tokens().unwrap();
    let mut parser = Parser::from_tokens(tokens);
    let exprs = parser.collect_exprs().unwrap();
    let mut output = Vec::new();
    let r = interpret_program(exprs, &mut output);
    (output, r)
}

#[test]
fn execution_stops_at_first_error() {
    let exprs = vec![
        at(ExprKind::Push(Value::Number(5)), 0),
        at(ExprKind::Add, 2),
        at(ExprKind::Print, 4),
    ];
    let mut output = Vec::new();
    match interpret_program(exprs, &mut output) {
        Err(ChaiError::SourceError(s, p, m)) => {
            assert_eq!(s, "prog.chai");
            assert_eq!(p, (0, 2));
            assert_eq!(m, "Expected 2 or more elements on stack.");
        }
        _ => panic!("expected a stack error"),
    }
    assert!(output.is_empty());
}

#[test]
fn add_then_print() {
    let mut stack = vec![Value::Number(2), Value::Number(3)];
    let out = execute(&mut stack, &at(ExprKind::Add, 0)).unwrap();
    assert!(out.is_none());
    assert_eq!(stack.len(), 1);
    assert!(matches!(stack[0], Value::Number(5)));
    let out = execute(&mut stack, &at(ExprKind::Print, 2)).unwrap();
    assert_eq!(out, Some("5".to_string()));
    assert!(stack.is_empty());
}

#[test]
fn print_text_verbatim() {
    let mut stack = vec![Value::String("hi".to_string())];
    let out = execute(&mut stack, &at(ExprKind::Print, 0)).unwrap();
    assert_eq!(out, Some("hi".to_string()));
    assert!(stack.is_empty());
}

#[test]
fn print_on_empty_stack_fails() {
    let mut stack = Vec::new();
    match execute(&mut stack, &at(ExprKind::Print, 7)) {
        Err(ChaiError::SourceError(_, p, m)) => {
            assert_eq!(p, (0, 7));
            assert_eq!(m, "Expected 1 or more elements on stack.");
        }
        _ => panic!("expected a stack error"),
    }
}

#[test]
fn add_on_text_fails() {
    let mut stack = vec![Value::Number(1), Value::String("a\"b".to_string())];
    match execute(&mut stack, &at(ExprKind::Add, 3)) {
        Err(ChaiError::SourceError(_, p, m)) => {
            assert_eq!(p, (0, 3));
            assert_eq!(m, "Expected Value::Number(), found String(\"a\\\"b\") instead.");
        }
        _ => panic!("expected a type error"),
    }
    let mut stack = vec![Value::String("x".to_string()), Value::Number(1)];
    match execute(&mut stack, &at(ExprKind::Add, 3)) {
        Err(ChaiError::SourceError(_, _, m)) => {
            assert_eq!(m, "Expected Value::Number(), found String(\"x\") instead.");
        }
        _ => panic!("expected a type error"),
    }
}

#[test]
fn mismatch_message_wraps_debug_form() {
    assert_eq!(
        mismatch_message(&"\"q\"".to_string()),
        "Expected Value::Number(), found String(\"q\") instead."
    );
}

#[test]
fn addition_wraps_around() {
    let mut stack = vec![Value::Number(u64::MAX), Value::Number(2)];
    execute(&mut stack, &at(ExprKind::Add, 0)).unwrap();
    assert!(matches!(stack[0], Value::Number(1)));
}

#[test]
fn whole_program_prints_in_order() {
    let (output, r) = run_text("1 2 + print \"hi there\" print 0 print");
    assert!(r.is_ok());
    assert_eq!(output, vec!["3".to_string(), "hi there".to_string(), "0".to_string()]);
}

#[test]
fn output_before_error_is_kept() {
    let (output, r) = run_text("7 print print");
    assert_eq!(output, vec!["7".to_string()]);
    match r {
        Err(ChaiError::SourceError(_, p, _)) => assert_eq!(p, (0, 8)),
        _ => panic!("expected a stack error"),
    }
}

#[test]
fn blank_program_succeeds_silently() {
    let (output, r) = run_text(" \n\n  \t");
    assert!(r.is_ok());
    assert!(output.is_empty());
}
