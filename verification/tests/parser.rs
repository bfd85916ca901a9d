use minilang::arith::BinOp;
use minilang::ast::Expr;
use minilang::lexer::{Lexer, Token};
use minilang::parser::{parse_source, Parser};

fn number(n: i64) -> Box<Expr> {
    Box::new(Expr::Number(n))
}

fn var(name: &str) -> Expr {
    Expr::Var(name.to_string())
}

fn assign(name: &str, value: Expr) -> Expr {
    Expr::Assign(name.to_string(), Box::new(value))
}

#[test]
fn a_let_statement_binds_a_name_to_an_expression() {
    assert_eq!(
        parse_source("let x = 10 + 2;"),
        Some(vec![assign("x", Expr::BinOp(number(10), BinOp::Add, number(2)))])
    );
}

#[test]
fn each_operator_has_its_node() {
    assert_eq!(
        parse_source("let a = 1 - 2; let b = 3 / 4; let c = 5 * 6;"),
        Some(vec![
            assign("a", Expr::BinOp(number(1), BinOp::Sub, number(2))),
            assign("b", Expr::BinOp(number(3), BinOp::Div, number(4))),
            assign("c", Expr::BinOp(number(5), BinOp::Mul, number(6))),
        ])
    );
}

#[test]
fn subtraction_leans_left() {
    let first = Expr::BinOp(number(10), BinOp::Sub, number(3));
    assert_eq!(
        parse_source("let d = 10 - 3 - 2;"),
        Some(vec![assign("d", Expr::BinOp(Box::new(first), BinOp::Sub, number(2)))])
    );
}

#[test]
fn a_print_statement_wraps_its_expression() {
    assert_eq!(parse_source("print(x);"), Some(vec![Expr::Print(Box::new(var("x")))]));
    assert_eq!(
        parse_source("print(\"Hello, World!\");"),
        Some(vec![Expr::Print(Box::new(Expr::String("Hello, World!".to_string())))])
    );
}

#[test]
fn a_let_statement_that_is_not_complete_fails() {
    assert_eq!(parse_source("let x 10;"), None);
    assert_eq!(parse_source("let x = 10"), None);
    assert_eq!(parse_source("let 5 = 10;"), None);
    assert_eq!(parse_source("let = 10;"), None);
    assert_eq!(parse_source("let x = ;"), None);
    assert_eq!(parse_source("let x = 1 + ;"), None);
    assert_eq!(parse_source("let"), None);
    assert_eq!(parse_source("let print = 1;"), None);
}

#[test]
fn a_print_statement_that_is_not_complete_fails() {
    assert_eq!(parse_source("print x;"), None);
    assert_eq!(parse_source("print(x;"), None);
    assert_eq!(parse_source("print(x)"), None);
    assert_eq!(parse_source("print();"), None);
    assert_eq!(parse_source("print(1, 2);"), None);
}

#[test]
fn a_failing_statement_fails_the_whole_program() {
    assert_eq!(parse_source("let a = 1; let b 2; let c = 3;"), None);
}

#[test]
fn an_identifier_before_a_parenthesis_is_a_call() {
    assert_eq!(
        parse_source("foo(1, x, \"s\")"),
        Some(vec![Expr::Call(
            "foo".to_string(),
            vec![Expr::Number(1), var("x"), Expr::String("s".to_string())]
        )])
    );
    assert_eq!(parse_source("foo()"), Some(vec![Expr::Call("foo".to_string(), vec![])]));
}

#[test]
fn a_call_that_does_not_close_fails() {
    assert_eq!(parse_source("foo(1"), None);
    assert_eq!(parse_source("foo(1,)"), None);
    assert_eq!(parse_source("foo(,1)"), None);
    assert_eq!(parse_source("foo(1 2)"), None);
    assert_eq!(parse_source("foo(1 + 2)"), None);
}

#[test]
fn an_identifier_before_anything_else_starts_an_expression() {
    assert_eq!(parse_source("x"), Some(vec![var("x")]));
    assert_eq!(
        parse_source("x + 1 * y"),
        Some(vec![Expr::BinOp(
            Box::new(Expr::BinOp(Box::new(var("x")), BinOp::Add, number(1))),
            BinOp::Mul,
            Box::new(var("y"))
        )])
    );
    assert_eq!(parse_source("x +"), None);
}

#[test]
fn a_number_starts_an_expression_statement() {
    assert_eq!(parse_source("7"), Some(vec![Expr::Number(7)]));
    assert_eq!(
        parse_source("7 / x"),
        Some(vec![Expr::BinOp(number(7), BinOp::Div, Box::new(var("x")))])
    );
}

#[test]
fn a_string_literal_is_a_statement_by_itself() {
    assert_eq!(parse_source("\"hi\""), Some(vec![Expr::String("hi".to_string())]));
    assert_eq!(
        parse_source("\"a\" \"b\""),
        Some(vec![Expr::String("a".to_string()), Expr::String("b".to_string())])
    );
    assert_eq!(parse_source("\"hi\" + 1"), Some(vec![Expr::String("hi".to_string())]));
}

#[test]
fn a_string_keeps_its_escapes_as_written() {
    assert_eq!(
        parse_source(r#"print("a\n\"b\"");"#),
        Some(vec![Expr::Print(Box::new(Expr::String(r#"a\n\"b\""#.to_string())))])
    );
    assert_eq!(
        parse_source("let s = \"\";"),
        Some(vec![assign("s", Expr::String(String::new()))])
    );
}

#[test]
fn parsing_stops_at_a_token_that_starts_no_statement() {
    assert_eq!(
        parse_source("let x = 1; ) let y = 2;"),
        Some(vec![assign("x", Expr::Number(1))])
    );
    assert_eq!(parse_source("foo(1); let y = 2;"), Some(vec![Expr::Call("foo".to_string(), vec![Expr::Number(1)])]));
    assert_eq!(parse_source("x ; y"), Some(vec![var("x")]));
}

#[test]
fn a_program_needs_a_statement() {
    assert_eq!(parse_source(""), None);
    assert_eq!(parse_source("   \n\t"), None);
    assert_eq!(parse_source(";"), None);
    assert_eq!(parse_source("+ 1"), None);
}

#[test]
fn a_stray_character_in_place_of_a_statement_fails() {
    assert_eq!(parse_source("let x = 1; @"), None);
    assert_eq!(parse_source("@"), None);
    assert_eq!(parse_source("let x = 1 @ 2;"), None);
    assert_eq!(parse_source("let x = @;"), None);
}

#[test]
fn a_stray_character_after_the_parser_stopped_is_never_read() {
    assert_eq!(parse_source("x ; @"), Some(vec![var("x")]));
}

#[test]
fn a_number_literal_must_fit_in_64_bits() {
    assert_eq!(
        parse_source("let m = 9223372036854775807;"),
        Some(vec![assign("m", Expr::Number(i64::MAX))])
    );
    assert_eq!(parse_source("let m = 9223372036854775808;"), None);
    assert_eq!(parse_source("99999999999999999999"), None);
    assert_eq!(parse_source("let z = 007;"), Some(vec![assign("z", Expr::Number(7))]));
}

#[test]
fn a_minus_sign_is_an_operator_only() {
    assert_eq!(parse_source("let n = -1;"), None);
    assert_eq!(
        parse_source("let n = 0 - 1;"),
        Some(vec![assign("n", Expr::BinOp(number(0), BinOp::Sub, number(1)))])
    );
}

#[test]
fn tokens_that_the_grammar_does_not_use_start_no_statement() {
    assert_eq!(parse_source("if x"), None);
    assert_eq!(parse_source("true"), None);
    assert_eq!(parse_source("{ x }"), None);
    assert_eq!(parse_source("let x = 1 == 1;"), None);
}

#[test]
fn the_same_source_gives_the_same_tree() {
    let source = "let x = 1 + 2; print(x); foo(x, 3)";
    let copy = source.to_string();
    assert_eq!(parse_source(source), parse_source(&copy));
    assert_eq!(parse_source(source), parse_source(source));
}

#[test]
fn a_parser_starts_where_its_lexer_stands() {
    let mut lexer = Lexer::new("let x = 1; y");
    assert_eq!(lexer.next_token(), Some(Ok(Token::Let)));
    assert_eq!(lexer.next_token(), Some(Ok(Token::Identifier)));
    let mut parser = Parser::new(lexer);
    assert_eq!(parser.parse(), None);

    let mut lexer = Lexer::new("let x = 1; y");
    for _ in 0..5 {
        lexer.next_token();
    }
    let mut parser = Parser::new(lexer);
    assert_eq!(parser.parse(), Some(vec![var("y")]));
    assert_eq!(parser.parse(), None);
}

#[test]
fn a_clone_of_a_tree_equals_it() {
    let program = parse_source("let x = 1 + y; print(x); foo(x, \"s\", 3)").unwrap();
    for node in &program {
        assert_eq!(&node.clone(), node);
        assert_eq!(&node.duplicate(), node);
    }
}
