//! The expression tree built by the parser and consumed by the evaluator.

use vstd::prelude::*;

verus! {

/// Kind of a binary arithmetic operation.
#[derive(Debug, Clone, Copy, PartialEq, Eq, Structural)]
pub enum BinaryOp {
    Add,
    Subtract,
    Multiply,
    Divide,
    Power,
}

/// Kind of a built-in unary function.
#[derive(Debug, Clone, Copy, PartialEq, Eq, Structural)]
pub enum FunctionKind {
    Sine,
    Cosine,
    SquareRoot,
}

/// An expression tree node. Each node exclusively owns its children.
#[derive(Debug, PartialEq)]
pub enum Expr {
    /// Numeric literal, carrying the scanned text.
    Number(String),
    /// Binary arithmetic operation.
    Binary(BinaryOp, Box<Expr>, Box<Expr>),
    /// Built-in unary function application.
    Function(FunctionKind, Box<Expr>),
    /// Evaluates its argument, emits it, and yields the same value.
    Print(Box<Expr>),
    /// Variable reference.
    Variable(String),
    /// Variable assignment: evaluates the value, then binds the name.
    Assign(String, Box<Expr>),
}

/// Mathematical model of an expression tree.
pub enum ExprModel {
    Number(Seq<char>),
    Binary(BinaryOp, Box<ExprModel>, Box<ExprModel>),
    Function(FunctionKind, Box<ExprModel>),
    Print(Box<ExprModel>),
    Variable(Seq<char>),
    Assign(Seq<char>, Box<ExprModel>),
}

/// The model of an expression tree: string payloads become character
/// sequences, ownership structure is kept.
pub open spec fn expr_model(e: Expr) -> ExprModel
    decreases e,
{
    match e {
        Expr::Number(s) => ExprModel::Number(s@),
        Expr::Binary(op, l, r) => ExprModel::Binary(op, Box::new(expr_model(*l)), Box::new(expr_model(*r))),
        Expr::Function(f, a) => ExprModel::Function(f, Box::new(expr_model(*a))),
        Expr::Print(a) => ExprModel::Print(Box::new(expr_model(*a))),
        Expr::Variable(s) => ExprModel::Variable(s@),
        Expr::Assign(s, v) => ExprModel::Assign(s@, Box::new(expr_model(*v))),
    }
}

impl View for Expr {
    type V = ExprModel;

    open spec fn view(&self) -> ExprModel {
        expr_model(*self)
    }
}

} // verus!
