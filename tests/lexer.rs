use chai::error::ChaiError;
use chai::lexer::Lexer;
use chai::token::{Token, TokenKind};

fn lex(text: &str) -> Result<Vec<Token>, Vec<ChaiError>> {
    let mut lexer = Lexer::from_source_path(&"prog.chai".to_string(), Some(text.to_string()))
        .expect("a .chai path with contents makes a lexer");
    lexer.collect_tokens()
}

fn source_error(e: &ChaiError) -> (String, (usize, usize), String) {
    match e {
        ChaiError::SourceError(s, p, m) => (s.clone(), *p, m.clone()),
        ChaiError::StandardError(m) => panic!("expected a source error, got {}", m),
    }
}

#[test]
fn number_lexeme_gives_its_value_and_position() {
    let tokens = lex("  42").unwrap();
    assert_eq!(tokens.len(), 1);
    assert!(matches!(tokens[0].kind, TokenKind::Number(42)));
    assert_eq!(tokens[0].position, (0, 2));
    assert_eq!(tokens[0].source, "prog.chai");
}

#[test]
fn largest_number_is_accepted() {
    let tokens = lex("18446744073709551615").unwrap();
    assert!(matches!(tokens[0].kind, TokenKind::Number(u64::MAX)));
}

#[test]
fn number_too_large_is_an_error() {
    let errors = lex("1 18446744073709551616").unwrap_err();
    assert_eq!(errors.len(), 1);
    let (s, p, m) = source_error(&errors[0]);
    assert_eq!(s, "prog.chai");
    assert_eq!(p, (0, 2));
    assert_eq!(m, "Failed to convert '18446744073709551616' to number literal.");
}

#[test]
fn number_with_letters_is_an_error() {
    let errors = lex("12ab").unwrap_err();
    let (_, p, m) = source_error(&errors[0]);
    assert_eq!(p, (0, 0));
    assert_eq!(m, "Failed to convert '12ab' to number literal.");
}

#[test]
fn positions_follow_lines_and_columns() {
    let tokens = lex("1\n  2 +\n\nprint").unwrap();
    assert_eq!(tokens.len(), 4);
    assert_eq!(tokens[0].position, (0, 0));
    assert_eq!(tokens[1].position, (1, 2));
    assert_eq!(tokens[2].position, (1, 4));
    assert_eq!(tokens[3].position, (3, 0));
    assert!(matches!(tokens[2].kind, TokenKind::Plus));
    assert!(matches!(tokens[3].kind, TokenKind::Print));
}

#[test]
fn quoted_text_round_trips() {
    let tokens = lex("\"hello  world\\n\"").unwrap();
    assert_eq!(tokens.len(), 1);
    match &tokens[0].kind {
        TokenKind::String(s) => assert_eq!(s, "hello  world\\n"),
        _ => panic!("expected a string token"),
    }
    assert_eq!(tokens[0].position, (0, 0));
}

#[test]
fn empty_quoted_text() {
    let tokens = lex(" \"\" print").unwrap();
    assert_eq!(tokens.len(), 2);
    match &tokens[0].kind {
        TokenKind::String(s) => assert_eq!(s, ""),
        _ => panic!("expected a string token"),
    }
    assert_eq!(tokens[1].position, (0, 4));
}

#[test]
fn unterminated_string_is_an_error() {
    let errors = lex("1 \"abc def").unwrap_err();
    assert_eq!(errors.len(), 1);
    let (_, p, m) = source_error(&errors[0]);
    assert_eq!(p, (0, 2));
    assert_eq!(m, "Expected closing double-quote. Found end-of-file instead.");
}

#[test]
fn every_lexical_error_is_reported() {
    let errors = lex("@@ 5 ##").unwrap_err();
    assert_eq!(errors.len(), 2);
    let (_, p0, m0) = source_error(&errors[0]);
    let (_, p1, m1) = source_error(&errors[1]);
    assert_eq!(p0, (0, 0));
    assert_eq!(m0, "Unknown word '@@' found.");
    assert_eq!(p1, (0, 5));
    assert_eq!(m1, "Unknown word '##' found.");
}

#[test]
fn blank_source_has_no_tokens() {
    let tokens = lex("  \n\t \r\n ").unwrap();
    assert!(tokens.is_empty());
    assert!(lex("").unwrap().is_empty());
}

#[test]
fn wrong_extension_is_rejected() {
    let r = Lexer::from_source_path(&"prog.txt".to_string(), Some("1 print".to_string()));
    match r {
        Err(ChaiError::StandardError(m)) => {
            assert_eq!(m, "Source file 'prog.txt' must use the '.chai' file extension.")
        }
        _ => panic!("expected the extension error"),
    }
    assert!(Lexer::check_source_path(&"prog.chai.bak".to_string()).is_err());
    assert!(Lexer::check_source_path(&"chai".to_string()).is_err());
    assert!(Lexer::check_source_path(&"dir/prog.chai".to_string()).is_ok());
}

#[test]
fn unreadable_source_is_rejected() {
    match Lexer::from_source_path(&"gone.chai".to_string(), None) {
        Err(ChaiError::StandardError(m)) => {
            assert_eq!(m, "Failed to open file 'gone.chai' for reading")
        }
        _ => panic!("expected the read error"),
    }
}
