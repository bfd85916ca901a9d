use minilang::arith::BinOp;
use minilang::ast::Expr;
use minilang::interpreter::{EvalError, Interpreter, Outcome};
use minilang::parser::parse_source;

fn run(source: &str) -> (Interpreter, Vec<Outcome>, Option<EvalError>) {
    let program = parse_source(source).expect("the source parses");
    let mut interpreter = Interpreter::new();
    let (outcomes, error) = interpreter.run(program);
    (interpreter, outcomes, error)
}

#[test]
fn let_with_sum_then_print() {
    let (interpreter, outcomes, error) = run("let x = 10 + 2; print(x);");
    assert_eq!(error, None);
    assert_eq!(interpreter.lookup("x"), Some(12));
    assert_eq!(
        outcomes,
        vec![
            Outcome::Assigned { name: "x".to_string(), value: 12 },
            Outcome::Printed(12),
        ]
    );
}

#[test]
fn let_with_product_then_print() {
    let (interpreter, outcomes, error) = run("let y = 5 * 3; print(y);");
    assert_eq!(error, None);
    assert_eq!(interpreter.lookup("y"), Some(15));
    assert_eq!(outcomes.last(), Some(&Outcome::Printed(15)));
}

#[test]
fn division_by_zero_stops_the_run() {
    let (interpreter, outcomes, error) = run("let z = 10 / 0; print(z);");
    assert_eq!(error, Some(EvalError::DivisionByZero));
    assert_eq!(outcomes, vec![]);
    assert_eq!(interpreter.lookup("z"), None);
}

#[test]
fn print_of_a_string_shows_it_as_it_is() {
    let (_, outcomes, error) = run("print(\"Hello, World!\");");
    assert_eq!(error, None);
    assert_eq!(outcomes, vec![Outcome::Text("Hello, World!".to_string())]);
}

#[test]
fn let_without_equals_does_not_parse() {
    assert_eq!(parse_source("let x 10;"), None);
}

#[test]
fn operators_share_one_level_and_lean_left() {
    let program = parse_source("let v = 2 + 3 * 4;").unwrap();
    let sum = Expr::BinOp(Box::new(Expr::Number(2)), BinOp::Add, Box::new(Expr::Number(3)));
    let product = Expr::BinOp(Box::new(sum), BinOp::Mul, Box::new(Expr::Number(4)));
    assert_eq!(program, vec![Expr::Assign("v".to_string(), Box::new(product))]);
    let (interpreter, _, _) = run("let v = 2 + 3 * 4;");
    assert_eq!(interpreter.lookup("v"), Some(20));
}
