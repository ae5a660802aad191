use rlox::lexer::{LineLexer, LitType, OpType, Token};
use rlox::parser::{render_expr, Expr, ParseError, Parser, Visitor};

fn lex_line(src: &str) -> Vec<Token> {
    let mut lexer = LineLexer::new(src.to_string());
    lexer
        .lex_tokens()
        .into_iter()
        .map(|r| r.expect("lexical error in test input"))
        .collect()
}

fn parse_line(src: &str) -> Result<Expr, ParseError> {
    let mut parser = Parser::new(lex_line(src));
    parser.parse_tokens()
}

fn num(text: &str) -> Expr {
    Expr::Lit(LitType::Number(text.to_string()))
}

#[test]
fn test_visit() {
    let expressions = vec![
        // 1.5 + 1.5
        Expr::Bin(
            Box::new(num("1.5")),
            OpType::Plus,
            Box::new(num("1.5")),
        ),
        // (5 * 4)
        Expr::Grouping(Box::new(Expr::Bin(
            Box::new(num("5")),
            OpType::Star,
            Box::new(num("4")),
        ))),
        // "hello"
        Expr::Lit(LitType::String("hello".to_string())),
        // -1
        Expr::Unary(OpType::Minus, Box::new(num("1"))),
    ];

    let mut parser = Parser::new(Vec::new());
    for expr in expressions {
        println!("{}", parser.visit_expr(&expr));
    }
}

#[test]
fn parse_precedence() {
    // 1 + 2 * 3 binds the product tighter than the sum.
    let tree = parse_line("1 + 2 * 3").unwrap();
    let expected = Expr::Bin(
        Box::new(num("1")),
        OpType::Plus,
        Box::new(Expr::Bin(
            Box::new(num("2")),
            OpType::Star,
            Box::new(num("3")),
        )),
    );
    assert_eq!(expected, tree);
    let wrong = Expr::Bin(
        Box::new(Expr::Bin(
            Box::new(num("1")),
            OpType::Plus,
            Box::new(num("2")),
        )),
        OpType::Star,
        Box::new(num("3")),
    );
    assert_ne!(wrong, tree);
    assert_eq!("1 + 2 * 3", render_expr(&tree).as_str());
}

#[test]
fn parse_left_associativity() {
    // 1 - 2 - 3 folds to the left.
    let tree = parse_line("1 - 2 - 3").unwrap();
    let expected = Expr::Bin(
        Box::new(Expr::Bin(
            Box::new(num("1")),
            OpType::Minus,
            Box::new(num("2")),
        )),
        OpType::Minus,
        Box::new(num("3")),
    );
    assert_eq!(expected, tree);
    assert_eq!("1 - 2 - 3", render_expr(&tree).as_str());
}

#[test]
fn parse_grouping() {
    let tree = parse_line("(1 + 2)").unwrap();
    let expected = Expr::Grouping(Box::new(Expr::Bin(
        Box::new(num("1")),
        OpType::Plus,
        Box::new(num("2")),
    )));
    assert_eq!(expected, tree);
    // Rendering reproduces the parenthesization.
    assert_eq!("(1 + 2)", render_expr(&tree).as_str());
}

#[test]
fn parse_unary_chaining() {
    let tree = parse_line("!!true").unwrap();
    let expected = Expr::Unary(
        OpType::Bang,
        Box::new(Expr::Unary(OpType::Bang, Box::new(Expr::Lit(LitType::True)))),
    );
    assert_eq!(expected, tree);
    assert_eq!("!!true", render_expr(&tree).as_str());
}

#[test]
fn parse_literals() {
    assert_eq!(Expr::Lit(LitType::False), parse_line("false").unwrap());
    assert_eq!(Expr::Lit(LitType::True), parse_line("true").unwrap());
    assert_eq!(Expr::Lit(LitType::Nil), parse_line("nil").unwrap());

    let tree = parse_line("\"hello\"").unwrap();
    match &tree {
        Expr::Lit(LitType::String(s)) => assert_eq!("hello", s.as_str()),
        other => panic!("expected a string literal, got {:?}", other),
    }

    let tree = parse_line("42").unwrap();
    match &tree {
        Expr::Lit(LitType::Number(s)) => assert_eq!("42", s.as_str()),
        other => panic!("expected a number literal, got {:?}", other),
    }
}

#[test]
fn parse_comparison_and_equality() {
    let tree = parse_line("1 + 2 < 3 == true").unwrap();
    assert_eq!(
        "1 + 2 < 3 == true",
        render_expr(&tree).as_str()
    );
    match &tree {
        Expr::Bin(_, op, _) => assert_eq!(OpType::EqualEqual, *op),
        other => panic!("expected an equality at the root, got {:?}", other),
    }
}

#[test]
fn parse_no_primary_match() {
    // An identifier is no primary expression in this grammar.
    assert_eq!(Err(ParseError::NoPrimaryMatch), parse_line("foo"));
    assert_eq!(Err(ParseError::NoPrimaryMatch), parse_line("+"));
    assert_eq!(Err(ParseError::NoPrimaryMatch), parse_line(""));
    assert_eq!(Err(ParseError::NoPrimaryMatch), parse_line("1 + "));
}

#[test]
fn parse_missing_close_paren() {
    assert_eq!(Err(ParseError::MissingCloseParen), parse_line("(1 + 2"));
    assert_eq!(Err(ParseError::MissingCloseParen), parse_line("(1"));
}

#[test]
fn parse_stops_at_end_marker() {
    // Tokens past the first full expression are left unconsumed.
    let tree = parse_line("1 2").unwrap();
    match &tree {
        Expr::Lit(LitType::Number(s)) => assert_eq!("1", s.as_str()),
        other => panic!("expected a number literal, got {:?}", other),
    }
}

#[test]
fn render_unary_minus() {
    let tree = parse_line("-1").unwrap();
    assert_eq!("-1", render_expr(&tree).as_str());
}

#[test]
fn token_accessors() {
    let tokens = lex_line("a <= \"s\" 7");
    assert_eq!(Some("a".to_string()), tokens[0].str_val());
    assert_eq!(None, tokens[0].op_type());
    assert_eq!(Some(OpType::LessEqual), tokens[1].op_type());
    assert_eq!(None, tokens[1].str_val());
    assert_eq!(Some("s".to_string()), tokens[2].str_val());
    assert_eq!(Some("7".to_string()), tokens[3].str_val());
    assert_eq!(None, tokens[4].op_type());
}
