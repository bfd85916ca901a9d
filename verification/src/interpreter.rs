//! The evaluator: one flat environment of 64-bit integers, and a
//! fail-fast policy for division by zero and for unknown functions.

use vstd::prelude::*;
use vstd::hash_map::StringHashMap;
use crate::arith::{apply, lemma_apply_matches_native, truncated_quotient, BinOp};
use crate::ast::{tree_of, trees_of, Ast, Expr};

verus! {

/// The name of the one built-in function.
pub open spec fn print_name() -> Seq<char> {
    seq!['p', 'r', 'i', 'n', 't']
}

/// What a statement gives to display.
#[derive(Debug, PartialEq, Eq)]
pub enum Outcome {
    /// Nothing to display.
    Silent,
    /// A variable was bound to a value.
    Assigned { name: String, value: i64 },
    /// A variable stood alone; `None` where it is unbound.
    Variable { name: String, bound: Option<i64> },
    /// An integer literal stood alone.
    Number(i64),
    /// A string to display as it is.
    Text(String),
    /// An arithmetic expression stood alone.
    Operation(i64),
    /// A value to print.
    Printed(i64),
    /// The built-in function was called with this first argument.
    Called { name: String, argument: i64 },
}

/// Why evaluation stopped.
#[derive(Debug, PartialEq, Eq)]
pub enum EvalError {
    DivisionByZero,
    UnknownFunction(String),
}

/// What an `Outcome` denotes.
pub enum Effect {
    Silent,
    Assigned { name: Seq<char>, value: i64 },
    Variable { name: Seq<char>, bound: Option<i64> },
    Number(i64),
    Text(Seq<char>),
    Operation(i64),
    Printed(i64),
    Called { name: Seq<char>, argument: i64 },
}

/// What an `EvalError` denotes.
pub enum Fault {
    DivisionByZero,
    UnknownFunction(Seq<char>),
}

impl View for Outcome {
    type V = Effect;

    open spec fn view(&self) -> Effect {
        match self {
            Outcome::Silent => Effect::Silent,
            Outcome::Assigned { name, value } => Effect::Assigned { name: name@, value: *value },
            Outcome::Variable { name, bound } => Effect::Variable { name: name@, bound: *bound },
            Outcome::Number(n) => Effect::Number(*n),
            Outcome::Text(text) => Effect::Text(text@),
            Outcome::Operation(v) => Effect::Operation(*v),
            Outcome::Printed(v) => Effect::Printed(*v),
            Outcome::Called { name, argument } => Effect::Called {
                name: name@,
                argument: *argument,
            },
        }
    }
}

impl View for EvalError {
    type V = Fault;

    open spec fn view(&self) -> Fault {
        match self {
            EvalError::DivisionByZero => Fault::DivisionByZero,
            EvalError::UnknownFunction(name) => Fault::UnknownFunction(name@),
        }
    }
}

/// The view of a statement's result.
pub open spec fn result_view(r: Result<Outcome, EvalError>) -> Result<Effect, Fault> {
    match r {
        Ok(outcome) => Ok(outcome@),
        Err(error) => Err(error@),
    }
}

/// The value that `name` reads in `env`: zero where it is unbound.
pub open spec fn read(env: Map<Seq<char>, i64>, name: Seq<char>) -> i64 {
    if env.contains_key(name) {
        env[name]
    } else {
        0
    }
}

/// The value of `e` in `env`, or `None` where a division by zero is met.
/// A string, an assignment, a call or a print inside an expression
/// counts as zero.
pub open spec fn eval_value(env: Map<Seq<char>, i64>, e: Ast) -> Option<i64>
    decreases e,
{
    match e {
        Ast::Number(n) => Some(n),
        Ast::Var(name) => Some(read(env, name)),
        Ast::BinOp(left, op, right) => match eval_value(env, *left) {
            None => None,
            Some(a) => match eval_value(env, *right) {
                None => None,
                Some(b) => apply(op, a, b),
            },
        },
        _ => Some(0),
    }
}

/// A statement's two results: the environment after it, and what it
/// displays or why it failed.
pub struct Step {
    pub env: Map<Seq<char>, i64>,
    pub result: Result<Effect, Fault>,
}

/// The step that evaluating `e` for display makes: `shown` of its value,
/// or a division by zero. The environment stays.
pub open spec fn show(env: Map<Seq<char>, i64>, e: Ast, shown: spec_fn(i64) -> Effect) -> Step {
    match eval_value(env, e) {
        Some(v) => Step { env, result: Ok(shown(v)) },
        None => Step { env, result: Err(Fault::DivisionByZero) },
    }
}

/// What executing the statement `stmt` in `env` does.
pub open spec fn execute(env: Map<Seq<char>, i64>, stmt: Ast) -> Step {
    match stmt {
        Ast::Assign(name, value) => match eval_value(env, *value) {
            Some(v) => Step {
                env: env.insert(name, v),
                result: Ok(Effect::Assigned { name, value: v }),
            },
            None => Step { env, result: Err(Fault::DivisionByZero) },
        },
        Ast::Var(name) => Step {
            env,
            result: Ok(
                Effect::Variable {
                    name,
                    bound: if env.contains_key(name) {
                        Some(env[name])
                    } else {
                        None
                    },
                },
            ),
        },
        Ast::Number(n) => Step { env, result: Ok(Effect::Number(n)) },
        Ast::Text(text) => Step { env, result: Ok(Effect::Text(text)) },
        Ast::BinOp(_, _, _) => show(env, stmt, |v: i64| Effect::Operation(v)),
        Ast::Print(inner) => match *inner {
            Ast::Text(text) => Step { env, result: Ok(Effect::Text(text)) },
            _ => show(env, *inner, |v: i64| Effect::Printed(v)),
        },
        Ast::Call(name, args) => if name != print_name() {
            Step { env, result: Err(Fault::UnknownFunction(name)) }
        } else if args.len() == 0 {
            Step { env, result: Ok(Effect::Silent) }
        } else {
            show(env, args[0], |v: i64| Effect::Called { name, argument: v })
        },
    }
}

/// What running a program gives: the environment at the end, what the
/// statements displayed in order, and the fault that stopped it, if any.
pub struct Run {
    pub env: Map<Seq<char>, i64>,
    pub effects: Seq<Effect>,
    pub fault: Option<Fault>,
}

/// Runs the statements of `stmts` in order from `env`, and stops at the
/// first one that fails.
pub open spec fn run_program(env: Map<Seq<char>, i64>, stmts: Seq<Ast>) -> Run
    decreases stmts.len(),
{
    if stmts.len() == 0 {
        Run { env, effects: Seq::empty(), fault: None }
    } else {
        let step = execute(env, stmts[0]);
        match step.result {
            Err(fault) => Run { env: step.env, effects: Seq::empty(), fault: Some(fault) },
            Ok(effect) => {
                let rest = run_program(step.env, stmts.drop_first());
                Run { env: rest.env, effects: seq![effect] + rest.effects, fault: rest.fault }
            },
        }
    }
}

/// The effects that `outcomes` denote, in order.
pub open spec fn effects_of(outcomes: Seq<Outcome>) -> Seq<Effect> {
    outcomes.map_values(|o: Outcome| o@)
}

/// The view of an optional error.
pub open spec fn fault_of(error: Option<EvalError>) -> Option<Fault> {
    match error {
        Some(e) => Some(e@),
        None => None,
    }
}

/// The evaluator's state: the variables bound so far.
pub struct Interpreter {
    variables: StringHashMap<i64>,
}

impl View for Interpreter {
    type V = Map<Seq<char>, i64>;

    closed spec fn view(&self) -> Map<Seq<char>, i64> {
        self.variables@
    }
}

impl Interpreter {
    /// An evaluator with no variable bound.
    pub fn new() -> (r: Self)
        ensures
            r@ == Map::<Seq<char>, i64>::empty(),
    {
        Interpreter { variables: StringHashMap::new() }
    }

    /// The value bound to `name`, if any.
    pub fn lookup(&self, name: &str) -> (r: Option<i64>)
        ensures
            r == if self@.contains_key(name@) {
                Some(self@[name@])
            } else {
                None
            },
    {
        match self.variables.get(name) {
            Some(v) => Some(*v),
            None => None,
        }
    }

    /// Evaluates an expression. The environment is read, never written.
    pub fn eval(&mut self, expr: Expr) -> (r: Result<i64, EvalError>)
        ensures
            final(self)@ == old(self)@,
            match r {
                Ok(v) => eval_value(old(self)@, expr@) == Some(v),
                Err(e) => e@ == Fault::DivisionByZero && eval_value(old(self)@, expr@) is None,
            },
        decreases expr,
    {
        match expr {
            Expr::Number(value) => Ok(value),
            Expr::Var(var) => match self.variables.get(var.as_str()) {
                Some(v) => Ok(*v),
                None => Ok(0),
            },
            Expr::BinOp(left, op, right) => {
                let left_value = self.eval(*left)?;
                let right_value = self.eval(*right)?;
                match op.apply(left_value, right_value) {
                    Some(v) => Ok(v),
                    None => Err(EvalError::DivisionByZero),
                }
            },
            _ => Ok(0),
        }
    }

    /// Executes one statement: binds a variable, or says what to display.
    /// On an error the environment is left as it was.
    pub fn interpret(&mut self, ast: Expr) -> (r: Result<Outcome, EvalError>)
        ensures
            final(self)@ == execute(old(self)@, ast@).env,
            result_view(r) == execute(old(self)@, ast@).result,
    {
        proof {
            reveal_with_fuel(tree_of, 2);
        }
        match ast {
            Expr::Assign(var, value) => {
                let evaluated_value = self.eval(*value)?;
                let name = var.clone();
                self.variables.insert(var, evaluated_value);
                Ok(Outcome::Assigned { name, value: evaluated_value })
            },
            Expr::Var(var) => {
                let bound = self.lookup(var.as_str());
                Ok(Outcome::Variable { name: var, bound })
            },
            Expr::Number(value) => Ok(Outcome::Number(value)),
            Expr::String(value) => Ok(Outcome::Text(value)),
            Expr::BinOp(left, op, right) => {
                let result = self.eval(Expr::BinOp(left, op, right))?;
                Ok(Outcome::Operation(result))
            },
            Expr::Print(expr) => match *expr {
                Expr::String(s) => Ok(Outcome::Text(s)),
                other => {
                    let value = self.eval(other)?;
                    Ok(Outcome::Printed(value))
                },
            },
            Expr::Call(func_name, args) => {
                proof {
                    reveal_strlit("print");
                    assert("print"@ =~= print_name());
                }
                let builtin = "print".to_owned();
                if func_name == builtin {
                    let mut args = args;
                    let ghost trees = trees_of(args@);
                    if args.len() > 0 {
                        let first = args.swap_remove(0);
                        assert(trees[0] == first@);
                        let value = self.eval(first)?;
                        Ok(Outcome::Called { name: func_name, argument: value })
                    } else {
                        Ok(Outcome::Silent)
                    }
                } else {
                    Err(EvalError::UnknownFunction(func_name))
                }
            },
        }
    }

    /// Runs a program: executes its statements in order and stops at the
    /// first error. Returns what was displayed up to there, and the error.
    pub fn run(&mut self, program: Vec<Expr>) -> (r: (Vec<Outcome>, Option<EvalError>))
        ensures
            final(self)@ == run_program(old(self)@, trees_of(program@)).env,
            effects_of(r.0@) == run_program(old(self)@, trees_of(program@)).effects,
            fault_of(r.1) == run_program(old(self)@, trees_of(program@)).fault,
    {
        let ghost stmts = trees_of(program@);
        let ghost start = self@;
        let mut outcomes: Vec<Outcome> = Vec::new();
        assert(stmts.skip(0) =~= stmts);
        assert(effects_of(outcomes@) + run_program(start, stmts).effects =~= run_program(
            start,
            stmts,
        ).effects);
        for stmt in it: program
            invariant
                it.seq() == program@,
                stmts == trees_of(program@),
                start == old(self)@,
                run_program(start, stmts).env == run_program(self@, stmts.skip(it.index() as int)).env,
                run_program(start, stmts).effects == effects_of(outcomes@) + run_program(
                    self@,
                    stmts.skip(it.index() as int),
                ).effects,
                run_program(start, stmts).fault == run_program(
                    self@,
                    stmts.skip(it.index() as int),
                ).fault,
        {
            let ghost rest = stmts.skip(it.index() as int);
            let ghost before = outcomes@;
            assert(rest.len() > 0 && rest[0] == stmt@);
            assert(rest.drop_first() =~= stmts.skip(it.index() + 1));
            match self.interpret(stmt) {
                Ok(outcome) => {
                    outcomes.push(outcome);
                    assert(effects_of(outcomes@) =~= effects_of(before) + seq![outcome@]);
                },
                Err(error) => {
                    assert(effects_of(before) + Seq::<Effect>::empty() =~= effects_of(before));
                    return (outcomes, Some(error));
                },
            }
        }
        assert(effects_of(outcomes@) + Seq::<Effect>::empty() =~= effects_of(outcomes@));
        (outcomes, None)
    }
}

/// An integer literal evaluates to itself, whatever the environment.
pub proof fn lemma_literal_evaluates_to_itself(env: Map<Seq<char>, i64>, n: i64)
    ensures
        eval_value(env, Ast::Number(n)) == Some(n),
{
}

/// An operation on operands of known values gives what the operator
/// gives on those values: for `+`, `-` and `*` the exact result where it
/// fits in 64 bits, for `/` by a divisor other than zero the quotient
/// rounded toward zero.
pub proof fn lemma_operation_matches_native(
    env: Map<Seq<char>, i64>,
    left: Ast,
    op: BinOp,
    right: Ast,
    a: i64,
    b: i64,
)
    requires
        eval_value(env, left) == Some(a),
        eval_value(env, right) == Some(b),
    ensures
        ({
            let value = eval_value(env, Ast::BinOp(Box::new(left), op, Box::new(right)));
            &&& value == apply(op, a, b)
            &&& op == BinOp::Add && i64::MIN <= a + b <= i64::MAX ==> value == Some((a + b) as i64)
            &&& op == BinOp::Sub && i64::MIN <= a - b <= i64::MAX ==> value == Some((a - b) as i64)
            &&& op == BinOp::Mul && i64::MIN <= a * b <= i64::MAX ==> value == Some((a * b) as i64)
            &&& op == BinOp::Div && b != 0 && !(a == i64::MIN && b == -1) ==> value == Some(
                truncated_quotient(a as int, b as int) as i64,
            )
            &&& op == BinOp::Div && b == 0 ==> value is None
        }),
{
    lemma_apply_matches_native(op, a, b);
}

/// After an assignment, a reference to the same name reads the value
/// assigned.
pub proof fn lemma_read_after_write(
    env: Map<Seq<char>, i64>,
    name: Seq<char>,
    value: Ast,
    v: i64,
)
    requires
        eval_value(env, value) == Some(v),
    ensures
        execute(env, Ast::Assign(name, Box::new(value))).result == Ok::<Effect, Fault>(
            Effect::Assigned { name, value: v },
        ),
        eval_value(execute(env, Ast::Assign(name, Box::new(value))).env, Ast::Var(name)) == Some(
            v,
        ),
{
}

/// A variable that was never assigned reads zero, and that is no error.
pub proof fn lemma_unbound_reads_zero(env: Map<Seq<char>, i64>, name: Seq<char>)
    requires
        !env.contains_key(name),
    ensures
        eval_value(env, Ast::Var(name)) == Some(0i64),
        eval_value(Map::<Seq<char>, i64>::empty(), Ast::Var(name)) == Some(0i64),
{
}

/// A second assignment to a name overwrites the first: the name reads
/// the second value, and the environment is the one that the second
/// assignment alone would have left, so nothing keeps the first value.
pub proof fn lemma_reassignment_overwrites(
    env: Map<Seq<char>, i64>,
    name: Seq<char>,
    first: Ast,
    second: Ast,
    v: i64,
)
    requires
        eval_value(env, first) is Some,
        eval_value(execute(env, Ast::Assign(name, Box::new(first))).env, second) == Some(v),
    ensures
        ({
            let once = execute(env, Ast::Assign(name, Box::new(first))).env;
            let twice = execute(once, Ast::Assign(name, Box::new(second))).env;
            &&& eval_value(twice, Ast::Var(name)) == Some(v)
            &&& twice == env.insert(name, v)
        }),
{
    let once = execute(env, Ast::Assign(name, Box::new(first))).env;
    let twice = execute(once, Ast::Assign(name, Box::new(second))).env;
    assert(twice =~= env.insert(name, v));
}

/// A failing statement ends the run: what follows it changes nothing.
pub proof fn lemma_run_stops_at_fault(env: Map<Seq<char>, i64>, stmts: Seq<Ast>, more: Seq<Ast>)
    requires
        run_program(env, stmts).fault is Some,
    ensures
        run_program(env, stmts + more) == run_program(env, stmts),
    decreases stmts.len(),
{
    if stmts.len() > 0 {
        assert((stmts + more)[0] == stmts[0]);
        assert((stmts + more).drop_first() =~= stmts.drop_first() + more);
        let step = execute(env, stmts[0]);
        if step.result is Ok {
            lemma_run_stops_at_fault(step.env, stmts.drop_first(), more);
        }
    }
}

} // verus!
