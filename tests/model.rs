use chai::error::{location_label, ChaiError};
use chai::expr::{ExprKind, Value};
use chai::parser::Parser;
use chai::token::{Token, TokenKind, WordTable};

fn token(kind: TokenKind, line: usize, column: usize) -> Token {
    Token { kind, source: "p.chai".to_string(), position: (line, column) }
}

#[test]
fn tokens_map_one_for_one() {
    let tokens = vec![
        token(TokenKind::Number(4), 0, 0),
        token(TokenKind::String("s".to_string()), 0, 2),
        token(TokenKind::Plus, 1, 0),
        token(TokenKind::Print, 2, 3),
    ];
    let mut parser = Parser::from_tokens(tokens);
    let exprs = parser.collect_exprs().unwrap();
    assert_eq!(exprs.len(), 4);
    assert!(matches!(exprs[0].kind, ExprKind::Push(Value::Number(4))));
    match &exprs[1].kind {
        ExprKind::Push(Value::String(s)) => assert_eq!(s, "s"),
        _ => panic!("expected a text push"),
    }
    assert!(matches!(exprs[2].kind, ExprKind::Add));
    assert!(matches!(exprs[3].kind, ExprKind::Print));
    assert_eq!(exprs[2].position, (1, 0));
    assert_eq!(exprs[3].position, (2, 3));
    assert_eq!(exprs[3].source, "p.chai");
}

#[test]
fn no_tokens_no_exprs() {
    let mut parser = Parser::from_tokens(Vec::new());
    assert!(parser.collect_exprs().unwrap().is_empty());
}

#[test]
fn standard_error_renders() {
    let e = ChaiError::StandardError("No input file provided.".to_string());
    assert_eq!(e.render(), "Error: No input file provided.");
}

#[test]
fn source_error_renders_one_based() {
    let e = ChaiError::SourceError("a.chai".to_string(), (0, 4), "bad".to_string());
    assert_eq!(e.render(), "Error: a.chai (1,5): bad");
    let e = ChaiError::SourceError("b.chai".to_string(), (119, 9), "x".to_string());
    assert_eq!(e.render(), "Error: b.chai (120,10): x");
    assert_eq!(location_label(&"c".to_string(), (usize::MAX, 0)), format!("c ({},1):", usize::MAX as u128 + 1));
}

#[test]
fn values_render_as_text() {
    assert_eq!(Value::Number(0).render(), "0");
    assert_eq!(Value::Number(1234).render(), "1234");
    assert_eq!(Value::Number(u64::MAX).render(), "18446744073709551615");
    assert_eq!(Value::String("a \"b\"".to_string()).render(), "a \"b\"");
}

#[test]
fn word_table_knows_builtins() {
    let words = WordTable::builtin();
    assert!(matches!(words.lookup(&vec!['+']), Some(TokenKind::Plus)));
    assert!(matches!(words.lookup(&"print".chars().collect()), Some(TokenKind::Print)));
    assert!(words.lookup(&"Print".chars().collect()).is_none());
    assert!(words.lookup(&Vec::new()).is_none());
}
