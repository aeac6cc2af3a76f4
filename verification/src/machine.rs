//! The meaning of programs: an abstract machine that runs statement trees
//! one step at a time.
//!
//! The machine keeps a stack of tasks and a stack of values. A step takes
//! the task on top and does it: it may push other tasks, read or change the
//! scopes, and take values from the value stack or put some there. What the
//! machine cannot do by itself it asks of its host with an [`ActionView`] and
//! stops; the host's reply goes on the value stack when the machine runs on.
//!
//! A block and a call make a frame for their variables. `break` and `return`
//! drop the tasks down to the mark of the loop or of the call that they
//! leave. When the machine goes back to a scope, the frames made since are
//! released, but not a frame in which a function was declared: the function
//! holds on to it.
//!
//! A list of statements gives the value of the last expression statement
//! that was executed in it, or `nil`; that is what a run ends with and what
//! a call without `return` gives.
use vstd::prelude::*;
use crate::callable::{Callable, Code};
use crate::environment::{bound, captured, defined, extended, lookup, released, Scope};
use crate::error::{DiagnosticView, ErrorType};
use crate::expressions::{Expr, Value};
use crate::numbers::{is_zero, less, negated, same};
use crate::statements::Stmt;
use crate::text::decimal;
use crate::tokens::TokenKind;

verus! {

/// The marks that the machine leaves among its tasks.
#[derive(Clone, Copy, Debug, PartialEq, Eq, Structural)]
pub enum MarkKind {
    /// The end of a block: the scope around it comes back.
    Restore,
    /// The end of a loop: where `break` goes.
    Loop,
    /// The end of a call: where `return` goes.
    Return,
}

/// One thing that the machine has yet to do.
#[derive(Clone, Copy, Debug)]
pub enum Task<'a> {
    /// Evaluate the expression and push its value.
    Evaluate(&'a Expr),
    /// Finish the expression, whose operands are on the value stack.
    Apply(&'a Expr),
    /// Finish a `+` of a number and a string: the operands and, above them,
    /// the number's text are on the value stack.
    Join(&'a Expr),
    /// Go on with a call whose callee and first `next` arguments are on the
    /// value stack.
    Arguments { call: &'a Expr, next: usize },
    /// Call the callee that lies on the value stack below its `count`
    /// arguments. What is wrong with the call is reported at the given
    /// place.
    Call { count: usize, line: usize, column: usize },
    /// Execute the statement. With `keep`, the value of an expression
    /// statement takes the place of the top of the value stack.
    Execute { statement: &'a Stmt, keep: bool },
    /// Finish the statement, the value of whose expression is on the value
    /// stack.
    Complete { statement: &'a Stmt, keep: bool },
    /// Execute the statements from `next` on.
    Run { statements: &'a Vec<Stmt>, next: usize, keep: bool },
    /// Print the value on top of the value stack.
    Show,
    /// A mark: the scope to go back to, and the height of the value stack
    /// when the mark was left.
    Mark { kind: MarkKind, scope: usize, height: usize },
}

/// The arithmetic that the machine asks of its host.
#[derive(Clone, Copy, Debug, PartialEq, Eq, Structural)]
pub enum Operator {
    Add,
    Subtract,
    Multiply,
    Divide,
}

/// What the machine waits for from its host.
#[derive(Clone, Copy, Debug, PartialEq, Eq, Structural)]
pub enum Awaiting {
    Nothing,
    Number,
    Text,
}

/// What the machine asks of its host, or tells it.
pub enum ActionView {
    /// The steps allowed were taken; there is more to do.
    Running,
    /// The double that the digits spell is wanted.
    Number { digits: Seq<char> },
    /// The result of the operation on the two doubles is wanted.
    Arithmetic { operator: Operator, left: u64, right: u64 },
    /// The text of the double is wanted.
    Text { number: u64 },
    /// The time is wanted, in seconds, as a double.
    Clock,
    /// The text is to be printed on a line of its own.
    Print { text: Seq<char> },
    /// The run has ended with this value.
    Finished { value: Value },
    /// The run has ended with this error.
    Failed { diagnostic: DiagnosticView },
}

/// What the host answers.
pub enum ReplyView {
    Nothing,
    Number(u64),
    Text(Seq<char>),
}

/// The state of the machine.
pub struct State<'a> {
    /// Every frame that is there.
    pub scopes: Seq<Scope>,
    /// The scope in force.
    pub scope: usize,
    /// The scope of the globals.
    pub globals: usize,
    /// The function declarations executed so far.
    pub declarations: Seq<&'a Stmt>,
    pub tasks: Seq<Task<'a>>,
    pub values: Seq<Value>,
    /// Whether the value of every expression statement is printed.
    pub repl: bool,
    pub awaiting: Awaiting,
}

/// The outcome of a step: the state after it, and what the host is asked,
/// if anything.
pub struct Step<'a> {
    pub state: State<'a>,
    pub action: Option<ActionView>,
}

/// The text of a value. A number has no text of its own: its digits are the
/// host's to write.
pub open spec fn text_of_value(value: Value) -> Seq<char> {
    match value {
        Value::String(text) => text,
        Value::Boolean(truth) => if truth {
            "true"@
        } else {
            "false"@
        },
        Value::Callable(_) => "<fn>"@,
        Value::Nil => "nil"@,
        Value::Number(_) => Seq::empty(),
    }
}

/// Whether two values are equal. Values of one kind are compared by what
/// they hold, but no callable equals anything; a number or a string, held
/// against a boolean, gives that boolean.
pub open spec fn equal(left: Value, right: Value) -> bool {
    match (left, right) {
        (Value::Number(a), Value::Number(b)) => same(a, b),
        (Value::String(a), Value::String(b)) => a == b,
        (Value::Boolean(a), Value::Boolean(b)) => a == b,
        (Value::Nil, Value::Nil) => true,
        (Value::Number(_), Value::Boolean(b)) => b,
        (Value::String(_), Value::Boolean(b)) => b,
        (Value::Boolean(a), Value::Number(_)) => a,
        (Value::Boolean(a), Value::String(_)) => a,
        _ => false,
    }
}

/// The values up to `height`.
pub open spec fn cut(values: Seq<Value>, height: usize) -> Seq<Value> {
    if height < values.len() {
        values.take(height as int)
    } else {
        values
    }
}

/// The place of the nearest mark of the kind among the tasks.
pub open spec fn nearest(tasks: Seq<Task>, kind: MarkKind) -> Option<int>
    decreases tasks.len(),
{
    if tasks.len() == 0 {
        None
    } else if tasks.last() matches Task::Mark { kind: found, .. } && found == kind {
        Some(tasks.len() - 1)
    } else {
        nearest(tasks.drop_last(), kind)
    }
}

/// The scopes after the parameters from `next` on were set, in `frame`, to
/// the arguments, which lie in `values` from `base` on.
pub open spec fn entered(
    scopes: Seq<Scope>,
    frame: usize,
    params: Seq<String>,
    values: Seq<Value>,
    base: int,
    next: int,
) -> Seq<Scope>
    decreases params.len() - next,
{
    if 0 <= next < params.len() && 0 <= base + next < values.len() {
        entered(
            defined(scopes, frame, params[next]@, values[base + next]),
            frame,
            params,
            values,
            base,
            next + 1,
        )
    } else {
        scopes
    }
}

/// The message for a binary operator applied to what is no number.
pub open spec fn numbers_only(kind: TokenKind) -> Seq<char> {
    match kind {
        TokenKind::Minus => "Operator '-' can only be applied to numbers"@,
        TokenKind::Slash => "Operator '/' can only be applied to numbers"@,
        TokenKind::Star => "Operator '*' can only be applied to numbers"@,
        TokenKind::Greater | TokenKind::GreaterEqual => {
            "Operator '>' can only be applied to numbers"@
        },
        _ => "Operator '<' can only be applied to numbers"@,
    }
}

/// The message for a call with the wrong number of arguments.
pub open spec fn arity_message(expected: nat, actual: nat) -> Seq<char> {
    "Expected "@ + decimal(expected) + " arguments but got "@ + decimal(actual) + "."@
}

/// The message for a name that no scope holds.
pub open spec fn undefined_message(name: Seq<char>) -> Seq<char> {
    "Undefined variable '"@ + name + "'"@
}

impl<'a> State<'a> {
    /// The value on top of the value stack; `nil` if there is none.
    pub open spec fn top(self) -> Value {
        if self.values.len() > 0 {
            self.values.last()
        } else {
            Value::Nil
        }
    }

    /// The state without the value on top.
    pub open spec fn pop(self) -> State<'a> {
        if self.values.len() > 0 {
            State { values: self.values.drop_last(), ..self }
        } else {
            self
        }
    }

    /// The state with one more value.
    pub open spec fn push(self, value: Value) -> State<'a> {
        State { values: self.values.push(value), ..self }
    }

    /// The state with one more task.
    pub open spec fn schedule(self, task: Task<'a>) -> State<'a> {
        State { tasks: self.tasks.push(task), ..self }
    }

    /// The state in which the scope `scope` is back in force, or the
    /// globals if there is no such scope. The frames made since, but those
    /// that a function holds on to, are gone.
    pub open spec fn enter(self, scope: usize) -> State<'a> {
        let target = if scope < self.scopes.len() {
            scope
        } else {
            self.globals
        };
        let kept = if target > self.globals {
            target
        } else {
            self.globals
        };
        State { scope: target, scopes: released(self.scopes, kept), ..self }
    }

    /// The state between two runs: nothing to do, no value, the globals in
    /// force.
    pub open spec fn idle(self) -> State<'a> {
        State {
            tasks: Seq::empty(),
            values: Seq::empty(),
            scope: self.globals,
            scopes: released(self.scopes, self.globals),
            awaiting: Awaiting::Nothing,
            ..self
        }
    }

    /// A step that asks nothing of the host.
    pub open spec fn go(self) -> Step<'a> {
        Step { state: self, action: None }
    }

    /// A step that asks the host for something and waits for the answer.
    pub open spec fn ask(self, action: ActionView, awaiting: Awaiting) -> Step<'a> {
        Step { state: State { awaiting, ..self }, action: Some(action) }
    }

    /// A step that ends the run with a runtime error.
    pub open spec fn fail(self, line: usize, column: usize, message: Seq<char>) -> Step<'a> {
        Step {
            state: self.idle(),
            action: Some(
                ActionView::Failed {
                    diagnostic: DiagnosticView {
                        kind: ErrorType::RuntimeError,
                        line: line as nat,
                        column: column as nat,
                        message,
                    },
                },
            ),
        }
    }

    /// A step that ends the run with a value.
    pub open spec fn finish(self, value: Value) -> Step<'a> {
        Step { state: self.idle(), action: Some(ActionView::Finished { value }) }
    }

    /// The state after the tasks down to the nearest mark of the kind, and
    /// the mark, were dropped: the scope of the mark is in force, and the
    /// value stack is as high as it was at the mark. `None` without such a
    /// mark.
    pub open spec fn unwind(self, kind: MarkKind) -> Option<State<'a>> {
        match nearest(self.tasks, kind) {
            Some(place) => match self.tasks[place] {
                Task::Mark { scope, height, .. } => Some(
                    State {
                        tasks: self.tasks.take(place),
                        values: cut(self.values, height),
                        ..self
                    }.enter(scope),
                ),
                _ => None,
            },
            None => None,
        }
    }
}

/// Starts the evaluation of an expression.
pub open spec fn evaluate<'a>(state: State<'a>, expr: &'a Expr) -> Step<'a> {
    match expr {
        Expr::Literal { value } => state.push(value@).go(),
        Expr::Number { digits } => state.ask(
            ActionView::Number { digits: digits@ },
            Awaiting::Number,
        ),
        Expr::Grouping { expression } => state.schedule(Task::Evaluate(&**expression)).go(),
        Expr::Variable { name } => match lookup(state.scopes, state.scope, name.text@) {
            Some(value) => state.push(value).go(),
            None => state.fail(name.line, name.column, undefined_message(name.text@)),
        },
        Expr::Assign { value, .. } => state.schedule(Task::Apply(expr)).schedule(
            Task::Evaluate(&**value),
        ).go(),
        Expr::Unary { right, .. } => state.schedule(Task::Apply(expr)).schedule(
            Task::Evaluate(&**right),
        ).go(),
        Expr::Binary { left, right, .. } => state.schedule(Task::Apply(expr)).schedule(
            Task::Evaluate(&**right),
        ).schedule(Task::Evaluate(&**left)).go(),
        Expr::Logical { left, .. } => state.schedule(Task::Apply(expr)).schedule(
            Task::Evaluate(&**left),
        ).go(),
        Expr::Call { callee, .. } => state.schedule(
            Task::Arguments { call: expr, next: 0 },
        ).schedule(Task::Evaluate(&**callee)).go(),
    }
}

/// Applies a binary operator of the given kind, found at the given place,
/// to two values. The state holds neither operand any more.
pub open spec fn operate<'a>(
    state: State<'a>,
    expr: &'a Expr,
    kind: TokenKind,
    line: usize,
    column: usize,
    left: Value,
    right: Value,
) -> Step<'a> {
    match kind {
        TokenKind::EqualEqual => state.push(Value::Boolean(equal(left, right))).go(),
        TokenKind::BangEqual => state.push(Value::Boolean(!equal(left, right))).go(),
        TokenKind::Plus => match (left, right) {
            (Value::Number(a), Value::Number(b)) => state.ask(
                ActionView::Arithmetic { operator: Operator::Add, left: a, right: b },
                Awaiting::Number,
            ),
            (Value::String(a), Value::String(b)) => state.push(Value::String(a + b)).go(),
            (Value::Number(a), Value::String(_)) => state.push(left).push(right).schedule(
                Task::Join(expr),
            ).ask(ActionView::Text { number: a }, Awaiting::Text),
            (Value::String(_), Value::Number(b)) => state.push(left).push(right).schedule(
                Task::Join(expr),
            ).ask(ActionView::Text { number: b }, Awaiting::Text),
            _ => state.fail(
                line,
                column,
                "Operator '+' can only be applied to numbers or strings"@,
            ),
        },
        TokenKind::Minus | TokenKind::Star | TokenKind::Slash | TokenKind::Greater
        | TokenKind::GreaterEqual | TokenKind::Less | TokenKind::LessEqual => match (left, right) {
            (Value::Number(a), Value::Number(b)) => match kind {
                TokenKind::Minus => state.ask(
                    ActionView::Arithmetic { operator: Operator::Subtract, left: a, right: b },
                    Awaiting::Number,
                ),
                TokenKind::Star => state.ask(
                    ActionView::Arithmetic { operator: Operator::Multiply, left: a, right: b },
                    Awaiting::Number,
                ),
                TokenKind::Slash => if is_zero(a) && is_zero(b) {
                    state.fail(line, column, "Can not divide by 0"@)
                } else {
                    state.ask(
                        ActionView::Arithmetic { operator: Operator::Divide, left: a, right: b },
                        Awaiting::Number,
                    )
                },
                TokenKind::Greater => state.push(Value::Boolean(less(b, a))).go(),
                TokenKind::GreaterEqual => state.push(
                    Value::Boolean(less(b, a) || same(a, b)),
                ).go(),
                TokenKind::Less => state.push(Value::Boolean(less(a, b))).go(),
                _ => state.push(Value::Boolean(less(a, b) || same(a, b))).go(),
            },
            _ => state.fail(line, column, numbers_only(kind)),
        },
        _ => state.fail(line, column, "Invalid operator."@),
    }
}

/// Finishes an expression whose operands are on the value stack.
pub open spec fn apply<'a>(state: State<'a>, expr: &'a Expr) -> Step<'a> {
    let value = state.top();
    let rest = state.pop();
    match expr {
        Expr::Unary { operator, .. } => match operator.kind {
            TokenKind::Minus => match value {
                Value::Number(bits) => rest.push(Value::Number(negated(bits))).go(),
                _ => rest.fail(
                    operator.line,
                    operator.column,
                    "Operator '-' can only be applied to numbers."@,
                ),
            },
            TokenKind::Bang => rest.push(Value::Boolean(!value.is_truthy())).go(),
            _ => rest.fail(operator.line, operator.column, "Invalid operator."@),
        },
        Expr::Assign { name, .. } => if lookup(state.scopes, state.scope, name.text@) is Some {
            State { scopes: bound(state.scopes, state.scope, name.text@, value), ..state }.go()
        } else {
            state.fail(name.line, name.column, undefined_message(name.text@))
        },
        Expr::Logical { operator, right, .. } => match operator.kind {
            TokenKind::Or => if value.is_truthy() {
                state.go()
            } else {
                rest.schedule(Task::Evaluate(&**right)).go()
            },
            TokenKind::And => if value.is_truthy() {
                rest.schedule(Task::Evaluate(&**right)).go()
            } else {
                state.go()
            },
            _ => rest.fail(operator.line, operator.column, "Invalid operator."@),
        },
        Expr::Binary { operator, .. } => operate(
            rest.pop(),
            expr,
            operator.kind,
            operator.line,
            operator.column,
            rest.top(),
            value,
        ),
        _ => state.go(),
    }
}

/// Finishes a `+` of a number and a string, now that the host has given the
/// number's text.
pub open spec fn join<'a>(state: State<'a>, expr: &'a Expr) -> Step<'a> {
    let text = state.top();
    let right = state.pop().top();
    let left = state.pop().pop().top();
    let rest = state.pop().pop().pop();
    match (left, right, text) {
        (Value::Number(_), Value::String(b), Value::String(a)) => rest.push(
            Value::String(a + b),
        ).go(),
        (Value::String(a), Value::Number(_), Value::String(b)) => rest.push(
            Value::String(a + b),
        ).go(),
        _ => rest.push(Value::Nil).go(),
    }
}

/// Enters a function of the program: a new frame below its closure holds
/// its parameters, and its body runs up to a mark that brings the caller's
/// scope back.
pub open spec fn invoke<'a>(
    state: State<'a>,
    declaration: &'a Stmt,
    closure: usize,
    count: usize,
) -> Step<'a> {
    let base = state.values.len() - count;
    let frame = state.scopes.len() as usize;
    match declaration {
        Stmt::Function { params, body, .. } => {
            let made = extended(state.scopes, Some(closure));
            let bound = entered(made, frame, params@, state.values, base, 0);
            State {
                scopes: bound,
                scope: frame,
                values: cut(state.values, (base - 1) as usize).push(Value::Nil),
                tasks: state.tasks.push(
                    Task::Mark {
                        kind: MarkKind::Return,
                        scope: state.scope,
                        height: (base - 1) as usize,
                    },
                ).push(Task::Run { statements: body, next: 0, keep: true }),
                ..state
            }.go()
        },
        _ => state.go(),
    }
}

/// Calls the callee that lies on the value stack below its `count`
/// arguments: `clock` is asked of the host, a function of the program is
/// entered. What cannot be called, or is called with another number of
/// arguments than it has parameters, ends the run with an error at the
/// given place.
pub open spec fn call<'a>(state: State<'a>, count: usize, line: usize, column: usize) -> Step<'a> {
    let callee = if count < state.values.len() {
        state.values[state.values.len() - 1 - count]
    } else {
        Value::Nil
    };
    let refused = state.fail(line, column, "Can only perform calls on functions and classes."@);
    match callee {
        Value::Callable(callable) => if callable.parameters != count {
            state.fail(line, column, arity_message(callable.parameters as nat, count as nat))
        } else {
            match callable.code {
                Code::Clock => State {
                    values: cut(state.values, (state.values.len() - 1 - count) as usize),
                    ..state
                }.ask(ActionView::Clock, Awaiting::Number),
                Code::Function { declaration, closure } => if declaration
                    < state.declarations.len() && closure < state.scopes.len()
                    && state.scopes.len() < usize::MAX && (
                state.declarations[declaration as int] matches Stmt::Function { params, .. }
                    && params@.len() == count) {
                    invoke(state, state.declarations[declaration as int], closure, count)
                } else {
                    refused
                },
            }
        },
        _ => refused,
    }
}

/// Goes on with a call: evaluates the next argument, or makes the call when
/// none is left. What is called must be callable before any argument is
/// evaluated.
pub open spec fn arguments<'a>(state: State<'a>, call: &'a Expr, next: usize) -> Step<'a> {
    match call {
        Expr::Call { paren, arguments, .. } => {
            let callee = if next < state.values.len() {
                state.values[state.values.len() - 1 - next]
            } else {
                Value::Nil
            };
            if !(callee is Callable) {
                state.fail(
                    paren.line,
                    paren.column,
                    "Can only perform calls on functions and classes."@,
                )
            } else if next < arguments@.len() {
                state.push(Value::Nil).schedule(
                    Task::Arguments { call, next: (next + 1) as usize },
                ).schedule(Task::Execute { statement: &arguments@[next as int], keep: true }).go()
            } else {
                self::call(state, next, paren.line, paren.column)
            }
        },
        _ => state.go(),
    }
}

/// Starts the execution of a statement.
pub open spec fn execute<'a>(state: State<'a>, statement: &'a Stmt, keep: bool) -> Step<'a> {
    let finish = state.schedule(Task::Complete { statement, keep });
    match statement {
        Stmt::Print { expr } => finish.schedule(Task::Evaluate(expr)).go(),
        Stmt::Var { expr, .. } => finish.schedule(Task::Evaluate(expr)).go(),
        Stmt::Return { expr } => finish.schedule(Task::Evaluate(expr)).go(),
        Stmt::Expression { expr } => finish.schedule(Task::Evaluate(expr)).go(),
        Stmt::Conditional { condition, .. } => finish.schedule(Task::Evaluate(condition)).go(),
        Stmt::While { condition, .. } => state.schedule(
            Task::Mark {
                kind: MarkKind::Loop,
                scope: state.scope,
                height: state.values.len() as usize,
            },
        ).schedule(Task::Complete { statement, keep }).schedule(Task::Evaluate(condition)).go(),
        Stmt::Break { line, column } => match state.unwind(MarkKind::Loop) {
            Some(after) => after.go(),
            None => state.fail(*line, *column, "Can not break outside of a loop."@),
        },
        Stmt::Block { statements } => if state.scopes.len() < usize::MAX {
            State {
                scopes: extended(state.scopes, Some(state.scope)),
                scope: state.scopes.len() as usize,
                ..state
            }.schedule(
                Task::Mark {
                    kind: MarkKind::Restore,
                    scope: state.scope,
                    height: state.values.len() as usize,
                },
            ).schedule(Task::Run { statements, next: 0, keep: false }).go()
        } else {
            state.go()
        },
        Stmt::Function { name, params, .. } => {
            let callable = Value::Callable(
                Callable {
                    parameters: params@.len() as usize,
                    code: Code::Function {
                        declaration: state.declarations.len() as usize,
                        closure: state.scope,
                    },
                },
            );
            let declared = State {
                declarations: state.declarations.push(statement),
                scopes: captured(state.scopes, state.scope),
                ..state
            };
            match name {
                Some(name) => State {
                    scopes: defined(declared.scopes, state.scope, name@, callable),
                    ..declared
                }.go(),
                None => if keep {
                    declared.pop().push(callable).go()
                } else {
                    declared.go()
                },
            }
        },
    }
}

/// Finishes a statement, the value of whose expression is on the value
/// stack.
pub open spec fn complete<'a>(state: State<'a>, statement: &'a Stmt, keep: bool) -> Step<'a> {
    let value = state.top();
    let rest = state.pop();
    match statement {
        Stmt::Print { .. } => state.schedule(Task::Show).go(),
        Stmt::Var { name, .. } => State {
            scopes: defined(rest.scopes, rest.scope, name@, value),
            ..rest
        }.go(),
        Stmt::Return { .. } => match rest.unwind(MarkKind::Return) {
            Some(after) => after.push(value).go(),
            None => rest.finish(value),
        },
        Stmt::Expression { .. } => {
            let kept = if keep {
                rest.pop().push(value)
            } else {
                rest
            };
            if state.repl {
                kept.push(value).schedule(Task::Show).go()
            } else {
                kept.go()
            }
        },
        Stmt::Conditional { then_branch, else_branch, .. } => if value.is_truthy() {
            rest.schedule(Task::Execute { statement: &**then_branch, keep: false }).go()
        } else {
            match else_branch {
                Some(branch) => rest.schedule(
                    Task::Execute { statement: &**branch, keep: false },
                ).go(),
                None => rest.go(),
            }
        },
        Stmt::While { condition, body } => if value.is_truthy() {
            rest.schedule(Task::Complete { statement, keep }).schedule(
                Task::Evaluate(condition),
            ).schedule(Task::Execute { statement: &**body, keep: false }).go()
        } else {
            rest.go()
        },
        _ => rest.go(),
    }
}

/// Prints the value on top of the value stack. The text of a number is asked
/// of the host first, and printed in the next step.
pub open spec fn show<'a>(state: State<'a>) -> Step<'a> {
    let rest = state.pop();
    match state.top() {
        Value::Number(bits) => rest.schedule(Task::Show).ask(
            ActionView::Text { number: bits },
            Awaiting::Text,
        ),
        value => rest.ask(ActionView::Print { text: text_of_value(value) }, Awaiting::Nothing),
    }
}

/// Passes a mark: its scope comes back; at the end of a call, the value on
/// top is what the call gives, and what else the call left on the value
/// stack goes.
pub open spec fn pass<'a>(
    state: State<'a>,
    kind: MarkKind,
    scope: usize,
    height: usize,
) -> Step<'a> {
    match kind {
        MarkKind::Return => State {
            values: cut(state.values, height).push(state.top()),
            ..state
        }.enter(scope).go(),
        _ => state.enter(scope).go(),
    }
}

/// One step of the machine. With nothing left to do, the run ends with the
/// value on top of the value stack.
pub open spec fn step<'a>(state: State<'a>) -> Step<'a> {
    if state.tasks.len() == 0 {
        state.finish(state.top())
    } else {
        let rest = State { tasks: state.tasks.drop_last(), ..state };
        match state.tasks.last() {
            Task::Evaluate(expr) => evaluate(rest, expr),
            Task::Apply(expr) => apply(rest, expr),
            Task::Join(expr) => join(rest, expr),
            Task::Arguments { call, next } => arguments(rest, call, next),
            Task::Call { count, line, column } => call(rest, count, line, column),
            Task::Execute { statement, keep } => execute(rest, statement, keep),
            Task::Complete { statement, keep } => complete(rest, statement, keep),
            Task::Run { statements, next, keep } => if next < statements@.len() {
                rest.schedule(Task::Run { statements, next: (next + 1) as usize, keep }).schedule(
                    Task::Execute { statement: &statements@[next as int], keep },
                ).go()
            } else {
                rest.go()
            },
            Task::Show => show(rest),
            Task::Mark { kind, scope, height } => pass(rest, kind, scope, height),
        }
    }
}

/// The state after the host's reply was taken: what the machine waited for
/// is on the value stack.
pub open spec fn answered<'a>(state: State<'a>, reply: ReplyView) -> State<'a> {
    let ready = State { awaiting: Awaiting::Nothing, ..state };
    match (state.awaiting, reply) {
        (Awaiting::Number, ReplyView::Number(bits)) => ready.push(Value::Number(bits)),
        (Awaiting::Text, ReplyView::Text(text)) => ready.push(Value::String(text)),
        _ => ready,
    }
}

/// Whether the reply is of the kind that the machine waits for.
pub open spec fn accepted<'a>(state: State<'a>, reply: ReplyView) -> bool {
    match state.awaiting {
        Awaiting::Nothing => reply is Nothing,
        Awaiting::Number => reply is Number,
        Awaiting::Text => reply is Text,
    }
}

/// Up to `budget` steps: the machine stops at the first step that asks
/// something of the host, or when the budget is used up.
pub open spec fn run<'a>(state: State<'a>, budget: nat) -> Step<'a>
    decreases budget,
{
    if budget == 0 {
        Step { state, action: Some(ActionView::Running) }
    } else {
        let next = step(state);
        if next.action is Some {
            next
        } else {
            run(next.state, (budget - 1) as nat)
        }
    }
}

/// The state of a new machine: nothing to do, and two frames, an empty one
/// and below it that of the globals, which holds `clock`.
pub open spec fn initial<'a>(repl: bool) -> State<'a> {
    State {
        scopes: defined(
            extended(extended(Seq::empty(), None), Some(0)),
            1,
            "clock"@,
            Value::Callable(Callable { parameters: 0, code: Code::Clock }),
        ),
        scope: 1,
        globals: 1,
        declarations: Seq::empty(),
        tasks: Seq::empty(),
        values: Seq::empty(),
        repl,
        awaiting: Awaiting::Nothing,
    }
}

/// The state in which the statements are all there is to do.
pub open spec fn loaded<'a>(state: State<'a>, statements: &'a Vec<Stmt>) -> State<'a> {
    state.idle().push(Value::Nil).schedule(Task::Run { statements, next: 0, keep: true })
}

/// The state in which a call of the callable with the arguments is all
/// there is to do.
pub open spec fn loaded_call<'a>(
    state: State<'a>,
    callable: Callable,
    arguments: Seq<Value>,
) -> State<'a> {
    State {
        values: seq![Value::Callable(callable)] + arguments,
        ..state.idle()
    }.schedule(Task::Call { count: arguments.len() as usize, line: 0, column: 0 })
}

/// The state in which the expression is all there is to do.
pub open spec fn loaded_expression<'a>(state: State<'a>, expr: &'a Expr) -> State<'a> {
    state.idle().schedule(Task::Evaluate(expr))
}

} // verus!
