use rlox::lexer::{KwordType, LexError, LineLexer, LitType, OpType, Token, TokenType};

fn lex_all(src: &str) -> Vec<Result<Token, LexError>> {
    let mut lexer = LineLexer::new(src.to_string());
    lexer.lex_tokens()
}

#[test]
fn lexer_test_lex_tokens() {
    let mut lexer = LineLexer::new("var myVar = 5;".to_string());
    let tokens = lexer.lex_tokens();

    assert_eq!(6, tokens.len());

    let mut lexer = LineLexer::new("print \"hello\";".to_string());
    let tokens = lexer.lex_tokens();

    assert_eq!(4, tokens.len());

    let mut lexer = LineLexer::new("a*5".to_string());
    let tokens = lexer.lex_tokens();

    assert_eq!(4, tokens.len());
}

#[test]
fn test_lex_str() {
    // Try to lex a string and assert that it succeeds
    let str = "\"hello\"";

    let mut lexer = LineLexer::new(str.to_string());
    let tok = lexer.lex_str();

    assert!(tok.is_ok());

    // Try to lex a bad string and assert that it fails
    let str = "\"hello";

    let mut lexer = LineLexer::new(str.to_string());
    let tok = lexer.lex_str();

    assert!(tok.is_err());
}

#[test]
fn test_lex_number() {
    // Try to lex a number and assert that it succeeds
    let num = "32.1";

    let mut lexer = LineLexer::new(num.to_string());
    let tok = lexer.lex_num();

    assert!(tok.is_ok());
}

#[test]
fn lex_kword() {
    let kword = "var";
    let mut lexer = LineLexer::new(kword.to_string());
    let tok = lexer.lex_identifier_or_kword().unwrap();
    assert_eq!(TokenType::Kword(KwordType::Var), tok.token_type);
}

#[test]
fn lex_identifier() {
    // Define a list of strings paired with whether they're valid
    let test_inputs = vec![
        // Valid identifiers
        ("abc", true),
        ("a123", true),
        ("bcc2dd", true),
        // Invalid identifiers
        ("abc@", false),
        ("@#aa", false),
    ];

    // Run tests for each input
    for (identifier, is_valid) in test_inputs {
        let mut lexer = LineLexer::new(identifier.to_string());
        let result = lexer.lex_identifier_or_kword();
        if is_valid {
            // Assert the success type of lexing valid identifiers
            let tok = result.unwrap();
            assert_eq!(
                TokenType::Lit(LitType::Identifier(String::from(identifier))),
                tok.token_type
            );
        } else {
            // Assert that an error occurs when lexing invalid identifiers
            assert!(result.is_err());
        }
    }
}

#[test]
fn lex_comment() {
    let src = "var // this is a comment";
    let mut lexer = LineLexer::new(src.to_string());
    let tokens = lexer.lex_tokens();

    // Two tokens: var, EOF
    assert_eq!(2, tokens.len());
}

#[test]
fn test_empty() {
    let src = "";
    let mut lexer = LineLexer::new(src.to_string());
    let tokens = lexer.lex_tokens();

    // Only EOF token should be present
    assert_eq!(1, tokens.len());
}

#[test]
fn test_illegal_char() {
    let src = "illegal?";
    let mut lexer = LineLexer::new(src.to_string());
    let tokens = lexer.lex_tokens();

    assert_eq!(2, tokens.len());
    assert!(tokens.get(0).unwrap().is_err());
}

#[test]
fn maximal_munch_two_char_ops() {
    for (src, op) in [
        ("!=", OpType::BangEqual),
        ("==", OpType::EqualEqual),
        (">=", OpType::GreaterEqual),
        ("<=", OpType::LessEqual),
    ] {
        let tokens = lex_all(src);
        // One operator token and the end marker, never two single-char forms.
        assert_eq!(2, tokens.len());
        let tok = tokens[0].as_ref().unwrap();
        assert_eq!(Some(op), tok.op_type());
    }
}

#[test]
fn single_char_ops_stand_alone() {
    for (src, op) in [
        ("!", OpType::Bang),
        ("=", OpType::Equal),
        (">", OpType::Greater),
        ("<", OpType::Less),
        ("/", OpType::Slash),
        ("+", OpType::Plus),
    ] {
        let tokens = lex_all(src);
        assert_eq!(2, tokens.len());
        assert_eq!(Some(op), tokens[0].as_ref().unwrap().op_type());
    }
}

#[test]
fn comment_keeps_preceding_token() {
    let tokens = lex_all("var // comment");
    assert_eq!(2, tokens.len());
    assert_eq!(
        TokenType::Kword(KwordType::Var),
        tokens[0].as_ref().unwrap().token_type
    );
    assert_eq!(TokenType::Eof, tokens[1].as_ref().unwrap().token_type);
}

#[test]
fn keyword_vs_identifier() {
    let tokens = lex_all("var");
    assert_eq!(
        TokenType::Kword(KwordType::Var),
        tokens[0].as_ref().unwrap().token_type
    );

    let tokens = lex_all("variable");
    let tok = tokens[0].as_ref().unwrap();
    assert!(matches!(tok.token_type, TokenType::Lit(LitType::Identifier(_))));
    assert_eq!(Some("variable".to_string()), tok.str_val());
}

#[test]
fn string_contents_round_trip() {
    let tokens = lex_all("\"hello\"");
    assert_eq!(2, tokens.len());
    let tok = tokens[0].as_ref().unwrap();
    assert!(matches!(tok.token_type, TokenType::Lit(LitType::String(_))));
    // Quotes stripped, contents kept exactly.
    assert_eq!(Some("hello".to_string()), tok.str_val());
}

#[test]
fn unclosed_string_is_error() {
    let tokens = lex_all("\"hello");
    assert_eq!(2, tokens.len());
    assert!(matches!(tokens[0], Err(LexError::UnclosedQuotation)));
}

#[test]
fn illegal_char_references_offender() {
    let tokens = lex_all("abc@");
    let mut saw_offender = false;
    for t in &tokens {
        if let Err(LexError::InvalidIdentChar { ident, ch }) = t {
            assert_eq!('@', *ch);
            assert_eq!("abc@", ident.as_str());
            saw_offender = true;
        }
    }
    assert!(saw_offender);
}

#[test]
fn number_text_kept_exactly() {
    let tokens = lex_all("32.1");
    let tok = tokens[0].as_ref().unwrap();
    assert!(matches!(tok.token_type, TokenType::Lit(LitType::Number(_))));
    assert_eq!(Some("32.1".to_string()), tok.str_val());

    // The scanner keeps even a run with several decimal points as text;
    // judging the numeral is the evaluator's concern.
    let tokens = lex_all("1.2.3");
    assert_eq!(2, tokens.len());
    assert_eq!(Some("1.2.3".to_string()), tokens[0].as_ref().unwrap().str_val());
}

#[test]
fn end_marker_is_single_and_last() {
    for src in ["", "var myVar = 5;", "abc@ def", "\"open", "1 + 2 * (3 - 4)"] {
        let tokens = lex_all(src);
        let mut eof_count: usize = 0;
        for t in &tokens {
            if let Ok(tok) = t {
                if tok.token_type == TokenType::Eof {
                    eof_count += 1;
                }
            }
        }
        assert_eq!(1, eof_count);
        let last = tokens.last().unwrap().as_ref().unwrap();
        assert_eq!(TokenType::Eof, last.token_type);
    }
}

#[test]
fn whitespace_only_skipped() {
    let tokens = lex_all("   \t  ");
    assert_eq!(1, tokens.len());

    let tokens = lex_all("  var   x  ");
    assert_eq!(3, tokens.len());
}
