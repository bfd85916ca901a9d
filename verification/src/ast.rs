//! The syntax tree and its mathematical view.

use vstd::prelude::*;
use crate::arith::{apply, BinOp};

verus! {

/// A node of the syntax tree. Each node owns its children.
#[derive(Debug, PartialEq, Eq)]
pub enum Expr {
    /// `let name = value`
    Assign(String, Box<Expr>),
    /// `left op right`
    BinOp(Box<Expr>, BinOp, Box<Expr>),
    /// A variable reference.
    Var(String),
    /// An integer literal.
    Number(i64),
    /// A string literal, without its quotes.
    String(String),
    /// `name(arguments)`
    Call(String, Vec<Expr>),
    /// `print(inner)`
    Print(Box<Expr>),
}

/// What an `Expr` denotes: the same tree over mathematical strings and
/// sequences.
pub enum Ast {
    Assign(Seq<char>, Box<Ast>),
    BinOp(Box<Ast>, BinOp, Box<Ast>),
    Var(Seq<char>),
    Number(i64),
    Text(Seq<char>),
    Call(Seq<char>, Seq<Ast>),
    Print(Box<Ast>),
}

/// The tree that `e` denotes.
pub open spec fn tree_of(e: Expr) -> Ast
    decreases e,
{
    match e {
        Expr::Assign(name, value) => Ast::Assign(name@, Box::new(tree_of(*value))),
        Expr::BinOp(left, op, right) => Ast::BinOp(
            Box::new(tree_of(*left)),
            op,
            Box::new(tree_of(*right)),
        ),
        Expr::Var(name) => Ast::Var(name@),
        Expr::Number(n) => Ast::Number(n),
        Expr::String(text) => Ast::Text(text@),
        Expr::Call(name, args) => Ast::Call(name@, trees_of(args@)),
        Expr::Print(inner) => Ast::Print(Box::new(tree_of(*inner))),
    }
}

/// The trees that the nodes of `nodes` denote, in order.
pub open spec fn trees_of(nodes: Seq<Expr>) -> Seq<Ast>
    decreases nodes,
{
    Seq::new(
        nodes.len(),
        |i: int|
            if 0 <= i < nodes.len() {
                tree_of(nodes[i])
            } else {
                Ast::Number(0)
            },
    )
}

impl View for Expr {
    type V = Ast;

    open spec fn view(&self) -> Ast {
        tree_of(*self)
    }
}

/// The value of a tree that reads no variable: `None` where it names a
/// variable, a call or a string, or divides by zero.
pub open spec fn constant_value(e: Ast) -> Option<i64>
    decreases e,
{
    match e {
        Ast::Number(n) => Some(n),
        Ast::BinOp(left, op, right) => match (constant_value(*left), constant_value(*right)) {
            (Some(a), Some(b)) => apply(op, a, b),
            _ => None,
        },
        Ast::Assign(_, value) => constant_value(*value),
        Ast::Print(inner) => constant_value(*inner),
        Ast::Var(_) => None,
        Ast::Text(_) => None,
        Ast::Call(_, _) => None,
    }
}

impl Expr {
    /// Evaluates the tree without an environment.
    pub fn eval(&self) -> (r: Option<i64>)
        ensures
            r == constant_value(self@),
        decreases self,
    {
        match self {
            Expr::Number(n) => Some(*n),
            Expr::Var(_) => None,
            Expr::BinOp(left, op, right) => {
                let a = left.eval()?;
                let b = right.eval()?;
                op.apply(a, b)
            },
            Expr::Assign(_, value) => value.eval(),
            Expr::Print(inner) => inner.eval(),
            Expr::String(_) => None,
            Expr::Call(_, _) => None,
        }
    }
}

impl Expr {
    /// A copy of the tree, node by node.
    pub fn duplicate(&self) -> (r: Expr)
        ensures
            r@ == self@,
        decreases self,
    {
        match self {
            Expr::Assign(name, value) => Expr::Assign(name.clone(), Box::new(value.duplicate())),
            Expr::BinOp(left, op, right) => Expr::BinOp(
                Box::new(left.duplicate()),
                *op,
                Box::new(right.duplicate()),
            ),
            Expr::Var(name) => Expr::Var(name.clone()),
            Expr::Number(n) => Expr::Number(*n),
            Expr::String(text) => Expr::String(text.clone()),
            Expr::Call(name, args) => {
                let mut copies: Vec<Expr> = Vec::new();
                let mut i: usize = 0;
                while i < args.len()
                    invariant
                        i <= args.len(),
                        copies.len() == i,
                        forall|j: int| 0 <= j < i ==> copies[j]@ == args[j]@,
                        decreases_to!(*self => *args),
                    decreases args.len() - i,
                {
                    assert(decreases_to!(*args => args[i as int]));
                    copies.push(args[i].duplicate());
                    i += 1;
                }
                assert(trees_of(copies@) =~= trees_of(args@));
                Expr::Call(name.clone(), copies)
            },
            Expr::Print(inner) => Expr::Print(Box::new(inner.duplicate())),
        }
    }
}

impl Clone for Expr {
    fn clone(&self) -> (r: Self)
        ensures
            r@ == self@,
    {
        self.duplicate()
    }
}

} // verus!
