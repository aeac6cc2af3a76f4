//! Values and expression trees.
use vstd::prelude::*;
use crate::callable::Callable;
use crate::statements::{Stmt, StmtView, view_of_statements};
use crate::tokens::{Token, TokenView};

verus! {

/// A value of the language. A number is the bit pattern of an IEEE-754 double.
#[derive(Debug)]
pub enum Literal {
    Number(u64),
    String(String),
    Boolean(bool),
    Callable(Callable),
    Nil,
}

/// The mathematical content of a [`Literal`].
pub enum Value {
    Number(u64),
    String(Seq<char>),
    Boolean(bool),
    Callable(Callable),
    Nil,
}

impl View for Literal {
    type V = Value;

    open spec fn view(&self) -> Value {
        match self {
            Literal::Number(bits) => Value::Number(*bits),
            Literal::String(text) => Value::String(text@),
            Literal::Boolean(truth) => Value::Boolean(*truth),
            Literal::Callable(callable) => Value::Callable(*callable),
            Literal::Nil => Value::Nil,
        }
    }
}

impl Value {
    /// Everything is truthy but `nil` and `false`.
    pub open spec fn is_truthy(self) -> bool {
        !(self is Nil) && self != Value::Boolean(false)
    }
}

impl Clone for Literal {
    fn clone(&self) -> (copy: Literal)
        ensures
            copy == *self,
    {
        match self {
            Literal::Number(bits) => Literal::Number(*bits),
            Literal::String(text) => Literal::String(text.clone()),
            Literal::Boolean(truth) => Literal::Boolean(*truth),
            Literal::Callable(callable) => Literal::Callable(*callable),
            Literal::Nil => Literal::Nil,
        }
    }
}

impl Literal {
    /// Whether the value counts as true in a condition.
    pub fn is_truthy(&self) -> (truthy: bool)
        ensures
            truthy == self@.is_truthy(),
            truthy == !(*self is Nil || (*self matches Literal::Boolean(truth) && !truth)),
    {
        match self {
            Literal::Boolean(truth) => *truth,
            Literal::Nil => false,
            Literal::Number(_) => true,
            Literal::String(_) => true,
            Literal::Callable(_) => true,
        }
    }
}

/// An expression tree.
#[derive(Debug)]
#[allow(inconsistent_fields)]
pub enum Expr {
    Binary { left: Box<Expr>, operator: Token, right: Box<Expr> },
    Grouping { expression: Box<Expr> },
    Literal { value: Literal },
    /// A number as written in the source. Its digits become a double only
    /// when the expression is evaluated.
    Number { digits: String },
    Unary { operator: Token, right: Box<Expr> },
    Variable { name: Token },
    Assign { name: Token, value: Box<Expr> },
    Logical { left: Box<Expr>, operator: Token, right: Box<Expr> },
    Call { callee: Box<Expr>, paren: Token, arguments: Vec<Stmt> },
}

/// The mathematical content of an [`Expr`].
#[allow(inconsistent_fields)]
pub enum ExprView {
    Binary { left: Box<ExprView>, operator: TokenView, right: Box<ExprView> },
    Grouping { expression: Box<ExprView> },
    Literal { value: Value },
    Number { digits: Seq<char> },
    Unary { operator: TokenView, right: Box<ExprView> },
    Variable { name: TokenView },
    Assign { name: TokenView, value: Box<ExprView> },
    Logical { left: Box<ExprView>, operator: TokenView, right: Box<ExprView> },
    Call { callee: Box<ExprView>, paren: TokenView, arguments: Seq<StmtView> },
}

impl Expr {
    pub open spec fn view(&self) -> ExprView
        decreases self,
    {
        match self {
            Expr::Binary { left, operator, right } => ExprView::Binary {
                left: Box::new(left.view()),
                operator: operator@,
                right: Box::new(right.view()),
            },
            Expr::Grouping { expression } => ExprView::Grouping {
                expression: Box::new(expression.view()),
            },
            Expr::Literal { value } => ExprView::Literal { value: value@ },
            Expr::Number { digits } => ExprView::Number { digits: digits@ },
            Expr::Unary { operator, right } => ExprView::Unary {
                operator: operator@,
                right: Box::new(right.view()),
            },
            Expr::Variable { name } => ExprView::Variable { name: name@ },
            Expr::Assign { name, value } => ExprView::Assign {
                name: name@,
                value: Box::new(value.view()),
            },
            Expr::Logical { left, operator, right } => ExprView::Logical {
                left: Box::new(left.view()),
                operator: operator@,
                right: Box::new(right.view()),
            },
            Expr::Call { callee, paren, arguments } => ExprView::Call {
                callee: Box::new(callee.view()),
                paren: paren@,
                arguments: view_of_statements(arguments@),
            },
        }
    }
}

} // verus!
