use minilang::arith::BinOp;
use minilang::ast::Expr;
use minilang::interpreter::{EvalError, Interpreter, Outcome};
use minilang::literal::{format_integer, parse_number};
use minilang::parser::parse_source;

fn number(n: i64) -> Box<Expr> {
    Box::new(Expr::Number(n))
}

fn var(name: &str) -> Expr {
    Expr::Var(name.to_string())
}

fn binary(a: i64, op: BinOp, b: i64) -> Expr {
    Expr::BinOp(number(a), op, number(b))
}

fn value_of(expr: Expr) -> Result<i64, EvalError> {
    Interpreter::new().eval(expr)
}

#[test]
fn a_literal_evaluates_to_itself() {
    for n in [0, 1, -1, 42, i64::MAX, i64::MIN] {
        assert_eq!(value_of(Expr::Number(n)), Ok(n));
        assert_eq!(Expr::Number(n).eval(), Some(n));
    }
}

#[test]
fn operators_match_native_arithmetic() {
    assert_eq!(value_of(binary(10, BinOp::Add, 2)), Ok(12));
    assert_eq!(value_of(binary(10, BinOp::Sub, 12)), Ok(-2));
    assert_eq!(value_of(binary(5, BinOp::Mul, 3)), Ok(15));
    assert_eq!(value_of(binary(-6, BinOp::Mul, 7)), Ok(-42));
    assert_eq!(value_of(binary(10, BinOp::Div, 2)), Ok(5));
}

#[test]
fn division_rounds_toward_zero() {
    assert_eq!(value_of(binary(7, BinOp::Div, 2)), Ok(3));
    assert_eq!(value_of(binary(-7, BinOp::Div, 2)), Ok(-3));
    assert_eq!(value_of(binary(7, BinOp::Div, -2)), Ok(-3));
    assert_eq!(value_of(binary(-7, BinOp::Div, -2)), Ok(3));
    assert_eq!(value_of(binary(0, BinOp::Div, 5)), Ok(0));
    assert_eq!(value_of(binary(1, BinOp::Div, 5)), Ok(0));
}

#[test]
fn overflow_wraps_in_twos_complement() {
    assert_eq!(value_of(binary(i64::MAX, BinOp::Add, 1)), Ok(i64::MIN));
    assert_eq!(value_of(binary(i64::MIN, BinOp::Sub, 1)), Ok(i64::MAX));
    assert_eq!(value_of(binary(i64::MAX, BinOp::Mul, 2)), Ok(-2));
    assert_eq!(value_of(binary(i64::MIN, BinOp::Div, -1)), Ok(i64::MIN));
    assert_eq!(BinOp::Mul.apply(i64::MIN, -1), Some(i64::MIN));
    assert_eq!(BinOp::Add.apply(i64::MAX, i64::MAX), Some(-2));
}

#[test]
fn division_by_zero_is_the_only_failure_of_an_operator() {
    assert_eq!(value_of(binary(10, BinOp::Div, 0)), Err(EvalError::DivisionByZero));
    assert_eq!(value_of(binary(0, BinOp::Div, 0)), Err(EvalError::DivisionByZero));
    assert_eq!(BinOp::Div.apply(1, 0), None);
    assert_eq!(BinOp::Div.apply(6, 3), Some(2));
    let nested = Expr::BinOp(Box::new(binary(1, BinOp::Div, 0)), BinOp::Add, number(1));
    assert_eq!(value_of(nested), Err(EvalError::DivisionByZero));
    let right = Expr::BinOp(number(1), BinOp::Add, Box::new(binary(1, BinOp::Div, 0)));
    assert_eq!(value_of(right), Err(EvalError::DivisionByZero));
}

#[test]
fn an_assignment_is_read_back() {
    let mut interpreter = Interpreter::new();
    let assignment = Expr::Assign("x".to_string(), Box::new(binary(10, BinOp::Add, 2)));
    assert_eq!(
        interpreter.interpret(assignment),
        Ok(Outcome::Assigned { name: "x".to_string(), value: 12 })
    );
    assert_eq!(interpreter.eval(var("x")), Ok(12));
    assert_eq!(interpreter.lookup("x"), Some(12));
}

#[test]
fn an_unbound_variable_reads_zero() {
    let mut interpreter = Interpreter::new();
    assert_eq!(interpreter.eval(var("nobody")), Ok(0));
    assert_eq!(interpreter.lookup("nobody"), None);
    let sum = Expr::BinOp(Box::new(var("nobody")), BinOp::Add, number(5));
    assert_eq!(interpreter.eval(sum), Ok(5));
}

#[test]
fn a_second_assignment_overwrites_the_first() {
    let mut interpreter = Interpreter::new();
    interpreter.interpret(Expr::Assign("x".to_string(), number(1))).unwrap();
    interpreter.interpret(Expr::Assign("y".to_string(), number(7))).unwrap();
    interpreter.interpret(Expr::Assign("x".to_string(), number(2))).unwrap();
    assert_eq!(interpreter.eval(var("x")), Ok(2));
    assert_eq!(interpreter.lookup("x"), Some(2));
    assert_eq!(interpreter.lookup("y"), Some(7));
}

#[test]
fn an_assignment_may_read_the_name_it_binds() {
    let (interpreter, _, error) = run("let x = 5; let x = x * x + 1;");
    assert_eq!(error, None);
    assert_eq!(interpreter.lookup("x"), Some(26));
}

fn run(source: &str) -> (Interpreter, Vec<Outcome>, Option<EvalError>) {
    let program = parse_source(source).expect("the source parses");
    let mut interpreter = Interpreter::new();
    let (outcomes, error) = interpreter.run(program);
    (interpreter, outcomes, error)
}

#[test]
fn a_string_counts_as_zero_in_an_expression() {
    let sum = Expr::BinOp(Box::new(Expr::String("abc".to_string())), BinOp::Add, number(5));
    assert_eq!(value_of(sum), Ok(5));
    assert_eq!(value_of(Expr::String("abc".to_string())), Ok(0));
    let (interpreter, _, _) = run("let s = \"abc\";");
    assert_eq!(interpreter.lookup("s"), Some(0));
}

#[test]
fn statements_inside_an_expression_count_as_zero_and_bind_nothing() {
    let mut interpreter = Interpreter::new();
    assert_eq!(interpreter.eval(Expr::Assign("x".to_string(), number(3))), Ok(0));
    assert_eq!(interpreter.lookup("x"), None);
    assert_eq!(interpreter.eval(Expr::Print(number(3))), Ok(0));
    assert_eq!(interpreter.eval(Expr::Call("foo".to_string(), vec![])), Ok(0));
}

#[test]
fn each_kind_of_statement_has_its_outcome() {
    let mut interpreter = Interpreter::new();
    interpreter.interpret(Expr::Assign("x".to_string(), number(4))).unwrap();
    assert_eq!(
        interpreter.interpret(var("x")),
        Ok(Outcome::Variable { name: "x".to_string(), bound: Some(4) })
    );
    assert_eq!(
        interpreter.interpret(var("y")),
        Ok(Outcome::Variable { name: "y".to_string(), bound: None })
    );
    assert_eq!(interpreter.interpret(Expr::Number(9)), Ok(Outcome::Number(9)));
    assert_eq!(
        interpreter.interpret(Expr::String("hi".to_string())),
        Ok(Outcome::Text("hi".to_string()))
    );
    assert_eq!(interpreter.interpret(binary(2, BinOp::Mul, 3)), Ok(Outcome::Operation(6)));
    assert_eq!(interpreter.interpret(Expr::Print(Box::new(var("x")))), Ok(Outcome::Printed(4)));
    assert_eq!(
        interpreter.interpret(Expr::Print(Box::new(Expr::String("raw".to_string())))),
        Ok(Outcome::Text("raw".to_string()))
    );
}

#[test]
fn only_print_is_a_known_function() {
    let mut interpreter = Interpreter::new();
    let call = Expr::Call("print".to_string(), vec![Expr::Number(3), Expr::Number(4)]);
    assert_eq!(
        interpreter.interpret(call),
        Ok(Outcome::Called { name: "print".to_string(), argument: 3 })
    );
    assert_eq!(interpreter.interpret(Expr::Call("print".to_string(), vec![])), Ok(Outcome::Silent));
    assert_eq!(
        interpreter.interpret(Expr::Call("foo".to_string(), vec![Expr::Number(1)])),
        Err(EvalError::UnknownFunction("foo".to_string()))
    );
    assert_eq!(
        interpreter.interpret(Expr::Call("Print".to_string(), vec![])),
        Err(EvalError::UnknownFunction("Print".to_string()))
    );
}

#[test]
fn an_error_leaves_the_environment_as_it_was() {
    let mut interpreter = Interpreter::new();
    interpreter.interpret(Expr::Assign("x".to_string(), number(1))).unwrap();
    let bad = Expr::Assign("x".to_string(), Box::new(binary(1, BinOp::Div, 0)));
    assert_eq!(interpreter.interpret(bad), Err(EvalError::DivisionByZero));
    assert_eq!(interpreter.lookup("x"), Some(1));
    assert_eq!(interpreter.interpret(binary(1, BinOp::Div, 0)), Err(EvalError::DivisionByZero));
    assert_eq!(
        interpreter.interpret(Expr::Print(Box::new(binary(1, BinOp::Div, 0)))),
        Err(EvalError::DivisionByZero)
    );
    let call = Expr::Call("print".to_string(), vec![binary(1, BinOp::Div, 0)]);
    assert_eq!(interpreter.interpret(call), Err(EvalError::DivisionByZero));
}

#[test]
fn a_run_stops_at_the_first_error() {
    let (interpreter, outcomes, error) = run("let a = 1; print(a); let z = 10 / 0; let b = 2;");
    assert_eq!(error, Some(EvalError::DivisionByZero));
    assert_eq!(
        outcomes,
        vec![Outcome::Assigned { name: "a".to_string(), value: 1 }, Outcome::Printed(1)]
    );
    assert_eq!(interpreter.lookup("a"), Some(1));
    assert_eq!(interpreter.lookup("z"), None);
    assert_eq!(interpreter.lookup("b"), None);
}

#[test]
fn a_run_stops_at_an_unknown_function() {
    let (_, outcomes, error) = run("print(1); foo(2) print(3);");
    assert_eq!(error, Some(EvalError::UnknownFunction("foo".to_string())));
    assert_eq!(outcomes, vec![Outcome::Printed(1)]);
}

#[test]
fn an_empty_program_runs_to_nothing() {
    let mut interpreter = Interpreter::new();
    assert_eq!(interpreter.run(vec![]), (vec![], None));
}

#[test]
fn each_outcome_has_its_line() {
    let line = |outcome: Outcome| outcome.line();
    assert_eq!(line(Outcome::Silent), None);
    assert_eq!(
        line(Outcome::Assigned { name: "x".to_string(), value: 12 }),
        Some("x = 12".to_string())
    );
    assert_eq!(
        line(Outcome::Variable { name: "x".to_string(), bound: Some(-3) }),
        Some("Value of 'x': -3".to_string())
    );
    assert_eq!(
        line(Outcome::Variable { name: "x".to_string(), bound: None }),
        Some("Variable 'x' not found".to_string())
    );
    assert_eq!(line(Outcome::Number(5)), Some("Number: 5".to_string()));
    assert_eq!(line(Outcome::Text("Hello, World!".to_string())), Some("Hello, World!".to_string()));
    assert_eq!(line(Outcome::Text(String::new())), Some(String::new()));
    assert_eq!(line(Outcome::Operation(7)), Some("Operation result: 7".to_string()));
    assert_eq!(line(Outcome::Printed(15)), Some("15".to_string()));
    assert_eq!(
        line(Outcome::Called { name: "print".to_string(), argument: 3 }),
        Some("Function 'print', argument: 3".to_string())
    );
}

#[test]
fn each_error_has_its_message() {
    assert_eq!(EvalError::DivisionByZero.message(), "Error: Division by zero!");
    assert_eq!(EvalError::UnknownFunction("foo".to_string()).message(), "Unknown function: foo");
}

#[test]
fn the_lines_of_a_program() {
    let (_, outcomes, error) = run("print(\"Hello, World!\"); let x = 10 + 2; print(x); x 3 + 4");
    assert_eq!(error, None);
    let lines: Vec<String> = outcomes.iter().filter_map(|outcome| outcome.line()).collect();
    assert_eq!(lines, vec!["Hello, World!", "x = 12", "12", "Value of 'x': 12", "Operation result: 7"]);
}

#[test]
fn integers_are_written_in_base_ten() {
    assert_eq!(format_integer(0), "0");
    assert_eq!(format_integer(7), "7");
    assert_eq!(format_integer(10), "10");
    assert_eq!(format_integer(-1), "-1");
    assert_eq!(format_integer(1234567890), "1234567890");
    assert_eq!(format_integer(i64::MAX), "9223372036854775807");
    assert_eq!(format_integer(i64::MIN), "-9223372036854775808");
}

#[test]
fn number_literals_are_read_in_base_ten() {
    assert_eq!(parse_number("0"), Some(0));
    assert_eq!(parse_number("12"), Some(12));
    assert_eq!(parse_number("007"), Some(7));
    assert_eq!(parse_number("9223372036854775807"), Some(i64::MAX));
    assert_eq!(parse_number("9223372036854775808"), None);
    assert_eq!(parse_number("00000000000000000000000001"), Some(1));
    assert_eq!(parse_number(""), None);
    assert_eq!(parse_number("12a"), None);
    assert_eq!(parse_number("-1"), None);
    assert_eq!(parse_number("+1"), None);
    assert_eq!(parse_number("１"), None);
}

#[test]
fn what_is_written_reads_back() {
    for n in [0, 9, 10, 99, 100, 4711, i64::MAX] {
        assert_eq!(parse_number(&format_integer(n)), Some(n));
    }
}

#[test]
fn a_tree_without_variables_has_a_value_of_its_own() {
    assert_eq!(binary(2, BinOp::Add, 3).eval(), Some(5));
    assert_eq!(binary(2, BinOp::Div, 0).eval(), None);
    assert_eq!(var("x").eval(), None);
    assert_eq!(Expr::String("s".to_string()).eval(), None);
    assert_eq!(Expr::Call("print".to_string(), vec![]).eval(), None);
    assert_eq!(Expr::Assign("x".to_string(), Box::new(binary(2, BinOp::Mul, 3))).eval(), Some(6));
    assert_eq!(Expr::Print(number(8)).eval(), Some(8));
    assert_eq!(Expr::BinOp(Box::new(var("x")), BinOp::Add, number(1)).eval(), None);
}

#[test]
fn a_division_by_zero_is_reported_in_bold_red_where_colours_are_on() {
    colored::control::set_override(true);
    assert_eq!(
        EvalError::DivisionByZero.report(),
        "\n\x1b[1;31mError: Division by zero!\x1b[0m\n"
    );
    assert_eq!(EvalError::UnknownFunction("foo".to_string()).report(), "Unknown function: foo");
    colored::control::set_override(false);
    assert_eq!(EvalError::DivisionByZero.report(), "\nError: Division by zero!\n");
    assert_eq!(EvalError::UnknownFunction("foo".to_string()).report(), "Unknown function: foo");
    colored::control::unset_override();
}
