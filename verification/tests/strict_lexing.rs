use rlox::lex::{LexError, Lexer};

#[test]
fn lex_test_lex_tokens() {
    let mut lexer = Lexer::new("var myVar = 5;".to_string());
    let tokens = lexer.lex_tokens().unwrap();

    assert_eq!(6, tokens.len());

    let mut lexer = Lexer::new("print \"hello\";".to_string());
    let tokens = lexer.lex_tokens().unwrap();

    assert_eq!(4, tokens.len());
}

#[test]
fn strict_identifier_run_is_alphabetic() {
    // The strict scanner ends an identifier at the first non-alphabetic
    // character, so the digits become a number token of their own.
    let mut lexer = Lexer::new("a123".to_string());
    let tokens = lexer.lex_tokens().unwrap();
    assert_eq!(3, tokens.len());
}

#[test]
fn strict_has_no_comments() {
    // `//` is two slash tokens for the strict scanner.
    let mut lexer = Lexer::new("var // c".to_string());
    let tokens = lexer.lex_tokens().unwrap();
    assert_eq!(5, tokens.len());
}

#[test]
fn strict_stops_at_first_error() {
    let mut lexer = Lexer::new("abc @ def".to_string());
    let result = lexer.lex_tokens();
    assert!(matches!(result, Err(LexError::IllegalChar('@'))));
}

#[test]
fn strict_unclosed_string_is_error() {
    let mut lexer = Lexer::new("\"hello".to_string());
    let result = lexer.lex_tokens();
    assert!(matches!(result, Err(LexError::UnclosedQuotation)));
}

#[test]
fn strict_empty_line() {
    let mut lexer = Lexer::new("".to_string());
    let tokens = lexer.lex_tokens().unwrap();
    assert_eq!(1, tokens.len());
}
