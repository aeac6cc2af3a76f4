//! Statement trees.
use vstd::prelude::*;
use crate::expressions::{Expr, ExprView};

verus! {

/// A statement tree.
#[derive(Debug)]
#[allow(inconsistent_fields)]
pub enum Stmt {
    Print { expr: Expr },
    Var { name: String, expr: Expr },
    While { condition: Expr, body: Box<Stmt> },
    Break { line: usize, column: usize },
    Return { expr: Expr },
    Conditional { condition: Expr, then_branch: Box<Stmt>, else_branch: Option<Box<Stmt>> },
    Block { statements: Vec<Stmt> },
    Expression { expr: Expr },
    /// A function declaration; without a name it is a function expression
    /// written where a statement stands.
    Function { name: Option<String>, params: Vec<String>, body: Vec<Stmt> },
}

/// The mathematical content of a [`Stmt`].
#[allow(inconsistent_fields)]
pub enum StmtView {
    Print { expr: ExprView },
    Var { name: Seq<char>, expr: ExprView },
    While { condition: ExprView, body: Box<StmtView> },
    Break { line: nat, column: nat },
    Return { expr: ExprView },
    Conditional { condition: ExprView, then_branch: Box<StmtView>, else_branch: Option<Box<StmtView>> },
    Block { statements: Seq<StmtView> },
    Expression { expr: ExprView },
    Function { name: Option<Seq<char>>, params: Seq<Seq<char>>, body: Seq<StmtView> },
}

impl Stmt {
    pub open spec fn view(&self) -> StmtView
        decreases self,
    {
        match self {
            Stmt::Print { expr } => StmtView::Print { expr: expr.view() },
            Stmt::Var { name, expr } => StmtView::Var { name: name@, expr: expr.view() },
            Stmt::While { condition, body } => StmtView::While {
                condition: condition.view(),
                body: Box::new(body.view()),
            },
            Stmt::Break { line, column } => StmtView::Break {
                line: *line as nat,
                column: *column as nat,
            },
            Stmt::Return { expr } => StmtView::Return { expr: expr.view() },
            Stmt::Conditional { condition, then_branch, else_branch } => StmtView::Conditional {
                condition: condition.view(),
                then_branch: Box::new(then_branch.view()),
                else_branch: match else_branch {
                    Some(branch) => Some(Box::new(branch.view())),
                    None => None,
                },
            },
            Stmt::Block { statements } => StmtView::Block {
                statements: view_of_statements(statements@),
            },
            Stmt::Expression { expr } => StmtView::Expression { expr: expr.view() },
            Stmt::Function { name, params, body } => StmtView::Function {
                name: match name {
                    Some(name) => Some(name@),
                    None => None,
                },
                params: params@.map_values(|param: String| param@),
                body: view_of_statements(body@),
            },
        }
    }
}

/// The contents of a list of statements, one by one.
pub open spec fn view_of_statements(statements: Seq<Stmt>) -> Seq<StmtView>
    decreases statements,
{
    if statements.len() == 0 {
        Seq::empty()
    } else {
        view_of_statements(statements.drop_last()).push(statements.last().view())
    }
}

/// `view_of_statements` keeps the length and views each statement in place.
pub proof fn lemma_view_of_statements(statements: Seq<Stmt>)
    ensures
        view_of_statements(statements).len() == statements.len(),
        forall|i: int| 0 <= i < statements.len() ==> (#[trigger] view_of_statements(statements)[i]) == statements[i].view(),
    decreases statements.len(),
{
    if statements.len() > 0 {
        lemma_view_of_statements(statements.drop_last());
    }
}

} // verus!
