//! The evaluator: the abstract machine of [`crate::machine`], run on real
//! data.
//!
//! To run a program, hand its statements to [`Interpreter::interpret`] and
//! call [`Interpreter::run`] with [`Reply::Nothing`]. Do what the [`Action`]
//! that comes back asks for and call `run` again with the answer, until the
//! action is `Finished` or `Failed`.
//!
//! The interpreter borrows the statements that it runs: they must live as
//! long as it does, since a function declared by one run may be called by a
//! later one.
use vstd::prelude::*;
use vstd::string::*;
use crate::callable::{Callable, Code};
use crate::environment::Environment;
use crate::error::{Diagnostic, ErrorType};
use crate::expressions::{Expr, Literal, Value};
use crate::lifetimes::{
    lemma_answered_keeps_order, lemma_initial_is_orderly, lemma_loaded_call_is_orderly,
    lemma_loaded_expression_is_orderly, lemma_loaded_is_orderly, lemma_run_keeps_order, orderly,
};
use crate::machine;
use crate::machine::{ActionView, Awaiting, MarkKind, Operator, ReplyView, State, Step, Task};
use crate::numbers::{is_less, is_same, negate, zero};
use crate::statements::Stmt;
use crate::text::{decimal_text, same_text};
use crate::tokens::{Token, TokenKind};

verus! {

/// What the interpreter asks of its host, or tells it.
#[derive(Debug)]
pub enum Action {
    /// The steps allowed were taken; there is more to do.
    Running,
    /// The double that the digits spell is wanted.
    Number { digits: String },
    /// The result of the operation on the two doubles is wanted.
    Arithmetic { operator: Operator, left: u64, right: u64 },
    /// The text of the double is wanted.
    Text { number: u64 },
    /// The time is wanted, in seconds since the Unix epoch, as a double.
    Clock,
    /// The text is to be printed on a line of its own.
    Print { text: String },
    /// The run has ended with this value.
    Finished { value: Literal },
    /// The run has ended with this error.
    Failed { diagnostic: Diagnostic },
}

impl View for Action {
    type V = ActionView;

    open spec fn view(&self) -> ActionView {
        match self {
            Action::Running => ActionView::Running,
            Action::Number { digits } => ActionView::Number { digits: digits@ },
            Action::Arithmetic { operator, left, right } => ActionView::Arithmetic {
                operator: *operator,
                left: *left,
                right: *right,
            },
            Action::Text { number } => ActionView::Text { number: *number },
            Action::Clock => ActionView::Clock,
            Action::Print { text } => ActionView::Print { text: text@ },
            Action::Finished { value } => ActionView::Finished { value: value@ },
            Action::Failed { diagnostic } => ActionView::Failed { diagnostic: diagnostic@ },
        }
    }
}

/// What the host answers.
#[derive(Debug)]
pub enum Reply {
    /// The answer to `Running` and `Print`, and the first word to a run.
    Nothing,
    /// The answer to `Number`, `Arithmetic` and `Clock`.
    Number(u64),
    /// The answer to `Text`.
    Text(String),
}

impl View for Reply {
    type V = ReplyView;

    open spec fn view(&self) -> ReplyView {
        match self {
            Reply::Nothing => ReplyView::Nothing,
            Reply::Number(bits) => ReplyView::Number(*bits),
            Reply::Text(text) => ReplyView::Text(text@),
        }
    }
}

/// The contents of a list of values, one by one.
pub open spec fn literal_views(values: Seq<Literal>) -> Seq<Value> {
    values.map_values(|value: Literal| value@)
}

/// The outcome of a step of the interpreter.
pub open spec fn outcome<'a>(state: State<'a>, action: Option<Action>) -> Step<'a> {
    Step {
        state,
        action: match action {
            Some(action) => Some(action@),
            None => None,
        },
    }
}

impl Literal {
    /// The text of a value. A number has no text of its own: its digits are
    /// the host's to write.
    pub fn text(&self) -> (text: String)
        ensures
            text@ == machine::text_of_value(self@),
    {
        match self {
            Literal::String(text) => text.clone(),
            Literal::Boolean(truth) => if *truth {
                String::from_str("true")
            } else {
                String::from_str("false")
            },
            Literal::Callable(_) => String::from_str("<fn>"),
            Literal::Nil => String::from_str("nil"),
            Literal::Number(_) => String::new(),
        }
    }

    /// Whether two values are equal.
    pub fn equals(&self, other: &Literal) -> (result: bool)
        ensures
            result == machine::equal(self@, other@),
    {
        match (self, other) {
            (Literal::Number(a), Literal::Number(b)) => is_same(*a, *b),
            (Literal::String(a), Literal::String(b)) => same_text(a.as_str(), b.as_str()),
            (Literal::Boolean(a), Literal::Boolean(b)) => *a == *b,
            (Literal::Nil, Literal::Nil) => true,
            (Literal::Number(_), Literal::Boolean(b)) => *b,
            (Literal::String(_), Literal::Boolean(b)) => *b,
            (Literal::Boolean(a), Literal::Number(_)) => *a,
            (Literal::Boolean(a), Literal::String(_)) => *a,
            _ => false,
        }
    }
}

/// The interpreter.
pub struct Interpreter<'a> {
    environment: Environment,
    scope: usize,
    globals: usize,
    declarations: Vec<&'a Stmt>,
    tasks: Vec<Task<'a>>,
    values: Vec<Literal>,
    repl: bool,
    awaiting: Awaiting,
}

impl<'a> Interpreter<'a> {
    pub closed spec fn view(&self) -> State<'a> {
        State {
            scopes: self.environment@,
            scope: self.scope,
            globals: self.globals,
            declarations: self.declarations@,
            tasks: self.tasks@,
            values: literal_views(self.values@),
            repl: self.repl,
            awaiting: self.awaiting,
        }
    }

    /// The scopes are well formed, and the scope in force and that of the
    /// globals are among them.
    pub closed spec fn valid(&self) -> bool {
        &&& self.environment.wf()
        &&& self.scope < self.environment@.len()
        &&& self.globals < self.environment@.len()
    }

    /// The interpreter is valid, and every scope that it may go back to is
    /// there.
    pub closed spec fn wf(&self) -> bool {
        &&& self.valid()
        &&& orderly(self@)
    }

    /// The value on top of the value stack, or `nil`.
    fn top(&self) -> (value: Literal)
        ensures
            value@ == self@.top(),
    {
        if self.values.len() > 0 {
            self.values[self.values.len() - 1].clone()
        } else {
            Literal::Nil
        }
    }

    /// Takes the value on top of the value stack; `nil` if there is none.
    fn pop(&mut self) -> (value: Literal)
        requires
            old(self).valid(),
        ensures
            final(self).valid(),
            value@ == old(self)@.top(),
            final(self)@ == old(self)@.pop(),
    {
        match self.values.pop() {
            Some(value) => {
                assert(self@.values =~= old(self)@.values.drop_last());
                value
            },
            None => Literal::Nil,
        }
    }

    fn push(&mut self, value: Literal)
        requires
            old(self).valid(),
        ensures
            final(self).valid(),
            final(self)@ == old(self)@.push(value@),
    {
        self.values.push(value);
        assert(self@.values =~= old(self)@.values.push(value@));
    }

    fn schedule(&mut self, task: Task<'a>)
        requires
            old(self).valid(),
        ensures
            final(self).valid(),
            final(self)@ == old(self)@.schedule(task),
    {
        self.tasks.push(task);
    }

    /// Drops the values above `height`.
    fn cut(&mut self, height: usize)
        requires
            old(self).valid(),
        ensures
            final(self).valid(),
            final(self)@ == (State {
                values: machine::cut(old(self)@.values, height),
                ..old(self)@
            }),
    {
        self.values.truncate(height);
        assert(self@.values =~= machine::cut(old(self)@.values, height));
    }

    /// Puts the scope in force, or the globals if there is no such scope.
    fn enter(&mut self, scope: usize)
        requires
            old(self).valid(),
        ensures
            final(self).valid(),
            final(self)@ == old(self)@.enter(scope),
    {
        if scope < self.environment.len() {
            self.scope = scope;
        } else {
            self.scope = self.globals;
        }
        let kept = if self.scope > self.globals {
            self.scope
        } else {
            self.globals
        };
        self.environment.release(kept);
    }

    /// Leaves nothing to do.
    fn reset(&mut self)
        requires
            old(self).valid(),
        ensures
            final(self).valid(),
            final(self)@ == old(self)@.idle(),
    {
        self.tasks = Vec::new();
        self.values = Vec::new();
        self.scope = self.globals;
        self.environment.release(self.globals);
        self.awaiting = Awaiting::Nothing;
        assert(self@.tasks =~= Seq::empty());
        assert(self@.values =~= Seq::empty());
    }

    /// Asks the host for something and waits for the answer.
    fn ask(&mut self, action: Action, awaiting: Awaiting) -> (asked: Option<Action>)
        requires
            old(self).valid(),
        ensures
            final(self).valid(),
            outcome(final(self)@, asked) == old(self)@.ask(action@, awaiting),
    {
        self.awaiting = awaiting;
        Some(action)
    }

    /// Ends the run with a runtime error.
    fn fail(&mut self, line: usize, column: usize, message: String) -> (failed: Option<Action>)
        requires
            old(self).valid(),
        ensures
            final(self).valid(),
            outcome(final(self)@, failed) == old(self)@.fail(line, column, message@),
    {
        self.reset();
        Some(
            Action::Failed {
                diagnostic: Diagnostic { kind: ErrorType::RuntimeError, line, column, message },
            },
        )
    }

    /// Ends the run with a value.
    fn finish(&mut self, value: Literal) -> (finished: Option<Action>)
        requires
            old(self).valid(),
        ensures
            final(self).valid(),
            outcome(final(self)@, finished) == old(self)@.finish(value@),
    {
        self.reset();
        Some(Action::Finished { value })
    }

    /// Drops the tasks down to the nearest mark of the kind, and the mark.
    fn unwind(&mut self, kind: MarkKind) -> (found: bool)
        requires
            old(self).valid(),
        ensures
            final(self).valid(),
            match old(self)@.unwind(kind) {
                Some(after) => found && final(self)@ == after,
                None => !found && final(self)@ == old(self)@,
            },
    {
        let mut place = self.tasks.len();
        assert(self.tasks@.take(place as int) =~= self.tasks@);
        while place > 0
            invariant
                self.valid(),
                *self == *old(self),
                place <= self.tasks@.len(),
                machine::nearest(self.tasks@.take(place as int), kind) == machine::nearest(
                    self.tasks@,
                    kind,
                ),
            decreases place,
        {
            assert(self.tasks@.take(place as int).drop_last() =~= self.tasks@.take(place - 1));
            assert(self.tasks@.take(place as int).last() == self.tasks@[place - 1]);
            place -= 1;
            match self.tasks[place] {
                Task::Mark { kind: found, scope, height } => {
                    if found == kind {
                        self.tasks.truncate(place);
                        self.cut(height);
                        self.enter(scope);
                        assert(self@.tasks =~= old(self)@.tasks.take(place as int));
                        return true;
                    }
                },
                _ => {},
            }
        }
        assert(self.tasks@.take(0) =~= Seq::empty());
        false
    }

    /// Ends the run because no scope holds the name.
    fn undefined(&mut self, name: &Token) -> (failed: Option<Action>)
        requires
            old(self).valid(),
        ensures
            final(self).valid(),
            outcome(final(self)@, failed) == old(self)@.fail(
                name.line,
                name.column,
                machine::undefined_message(name.text@),
            ),
    {
        let mut message = String::from_str("Undefined variable '");
        message.append(name.text.as_str());
        message.append("'");
        self.fail(name.line, name.column, message)
    }

    /// Starts the evaluation of an expression.
    fn step_evaluate(&mut self, expr: &'a Expr) -> (action: Option<Action>)
        requires
            old(self).valid(),
        ensures
            final(self).valid(),
            outcome(final(self)@, action) == machine::evaluate(old(self)@, expr),
    {
        match expr {
            Expr::Literal { value } => {
                self.push(value.clone());
                None
            },
            Expr::Number { digits } => self.ask(
                Action::Number { digits: digits.clone() },
                Awaiting::Number,
            ),
            Expr::Grouping { expression } => {
                self.schedule(Task::Evaluate(&**expression));
                None
            },
            Expr::Variable { name } => {
                let found = match self.environment.get(self.scope, name.text.as_str()) {
                    Some(value) => Some(value.clone()),
                    None => None,
                };
                match found {
                    Some(value) => {
                        self.push(value);
                        None
                    },
                    None => self.undefined(name),
                }
            },
            Expr::Assign { value, .. } => {
                self.schedule(Task::Apply(expr));
                self.schedule(Task::Evaluate(&**value));
                None
            },
            Expr::Unary { right, .. } => {
                self.schedule(Task::Apply(expr));
                self.schedule(Task::Evaluate(&**right));
                None
            },
            Expr::Binary { left, right, .. } => {
                self.schedule(Task::Apply(expr));
                self.schedule(Task::Evaluate(&**right));
                self.schedule(Task::Evaluate(&**left));
                None
            },
            Expr::Logical { left, .. } => {
                self.schedule(Task::Apply(expr));
                self.schedule(Task::Evaluate(&**left));
                None
            },
            Expr::Call { callee, .. } => {
                self.schedule(Task::Arguments { call: expr, next: 0 });
                self.schedule(Task::Evaluate(&**callee));
                None
            },
        }
    }

    /// Applies a binary operator to two values.
    fn operate(
        &mut self,
        expr: &'a Expr,
        kind: TokenKind,
        line: usize,
        column: usize,
        left: Literal,
        right: Literal,
    ) -> (action: Option<Action>)
        requires
            old(self).valid(),
        ensures
            final(self).valid(),
            outcome(final(self)@, action) == machine::operate(
                old(self)@,
                expr,
                kind,
                line,
                column,
                left@,
                right@,
            ),
    {
        match kind {
            TokenKind::EqualEqual => {
                self.push(Literal::Boolean(left.equals(&right)));
                None
            },
            TokenKind::BangEqual => {
                self.push(Literal::Boolean(!left.equals(&right)));
                None
            },
            TokenKind::Plus => match (left, right) {
                (Literal::Number(a), Literal::Number(b)) => self.ask(
                    Action::Arithmetic { operator: Operator::Add, left: a, right: b },
                    Awaiting::Number,
                ),
                (Literal::String(a), Literal::String(b)) => {
                    self.push(Literal::String(a.concat(b.as_str())));
                    None
                },
                (Literal::Number(a), Literal::String(b)) => {
                    self.push(Literal::Number(a));
                    self.push(Literal::String(b));
                    self.schedule(Task::Join(expr));
                    self.ask(Action::Text { number: a }, Awaiting::Text)
                },
                (Literal::String(a), Literal::Number(b)) => {
                    self.push(Literal::String(a));
                    self.push(Literal::Number(b));
                    self.schedule(Task::Join(expr));
                    self.ask(Action::Text { number: b }, Awaiting::Text)
                },
                _ => self.fail(
                    line,
                    column,
                    String::from_str("Operator '+' can only be applied to numbers or strings"),
                ),
            },
            TokenKind::Minus | TokenKind::Star | TokenKind::Slash | TokenKind::Greater
            | TokenKind::GreaterEqual | TokenKind::Less | TokenKind::LessEqual => match (
                left,
                right,
            ) {
                (Literal::Number(a), Literal::Number(b)) => match kind {
                    TokenKind::Minus => self.ask(
                        Action::Arithmetic { operator: Operator::Subtract, left: a, right: b },
                        Awaiting::Number,
                    ),
                    TokenKind::Star => self.ask(
                        Action::Arithmetic { operator: Operator::Multiply, left: a, right: b },
                        Awaiting::Number,
                    ),
                    TokenKind::Slash => if zero(a) && zero(b) {
                        self.fail(line, column, String::from_str("Can not divide by 0"))
                    } else {
                        self.ask(
                            Action::Arithmetic { operator: Operator::Divide, left: a, right: b },
                            Awaiting::Number,
                        )
                    },
                    TokenKind::Greater => {
                        self.push(Literal::Boolean(is_less(b, a)));
                        None
                    },
                    TokenKind::GreaterEqual => {
                        self.push(Literal::Boolean(is_less(b, a) || is_same(a, b)));
                        None
                    },
                    TokenKind::Less => {
                        self.push(Literal::Boolean(is_less(a, b)));
                        None
                    },
                    _ => {
                        self.push(Literal::Boolean(is_less(a, b) || is_same(a, b)));
                        None
                    },
                },
                _ => {
                    let message = match kind {
                        TokenKind::Minus => "Operator '-' can only be applied to numbers",
                        TokenKind::Slash => "Operator '/' can only be applied to numbers",
                        TokenKind::Star => "Operator '*' can only be applied to numbers",
                        TokenKind::Greater | TokenKind::GreaterEqual => {
                            "Operator '>' can only be applied to numbers"
                        },
                        _ => "Operator '<' can only be applied to numbers",
                    };
                    self.fail(line, column, String::from_str(message))
                },
            },
            _ => self.fail(line, column, String::from_str("Invalid operator.")),
        }
    }

    /// Finishes an expression whose operands are on the value stack.
    fn step_apply(&mut self, expr: &'a Expr) -> (action: Option<Action>)
        requires
            old(self).valid(),
        ensures
            final(self).valid(),
            outcome(final(self)@, action) == machine::apply(old(self)@, expr),
    {
        match expr {
            Expr::Unary { operator, .. } => {
                let value = self.pop();
                match operator.kind {
                    TokenKind::Minus => match value {
                        Literal::Number(bits) => {
                            self.push(Literal::Number(negate(bits)));
                            None
                        },
                        _ => self.fail(
                            operator.line,
                            operator.column,
                            String::from_str("Operator '-' can only be applied to numbers."),
                        ),
                    },
                    TokenKind::Bang => {
                        self.push(Literal::Boolean(!value.is_truthy()));
                        None
                    },
                    _ => self.fail(
                        operator.line,
                        operator.column,
                        String::from_str("Invalid operator."),
                    ),
                }
            },
            Expr::Assign { name, .. } => {
                let value = self.top();
                if self.environment.get(self.scope, name.text.as_str()).is_some() {
                    self.environment.bind(self.scope, name.text.as_str(), value);
                    None
                } else {
                    self.undefined(name)
                }
            },
            Expr::Logical { operator, right, .. } => {
                let truthy = self.top().is_truthy();
                match operator.kind {
                    TokenKind::Or => {
                        if !truthy {
                            self.pop();
                            self.schedule(Task::Evaluate(&**right));
                        }
                        None
                    },
                    TokenKind::And => {
                        if truthy {
                            self.pop();
                            self.schedule(Task::Evaluate(&**right));
                        }
                        None
                    },
                    _ => {
                        self.pop();
                        self.fail(
                            operator.line,
                            operator.column,
                            String::from_str("Invalid operator."),
                        )
                    },
                }
            },
            Expr::Binary { operator, .. } => {
                let right = self.pop();
                let left = self.pop();
                self.operate(expr, operator.kind, operator.line, operator.column, left, right)
            },
            _ => None,
        }
    }

    /// Finishes a `+` of a number and a string.
    fn step_join(&mut self, expr: &'a Expr) -> (action: Option<Action>)
        requires
            old(self).valid(),
        ensures
            final(self).valid(),
            outcome(final(self)@, action) == machine::join(old(self)@, expr),
    {
        let text = self.pop();
        let right = self.pop();
        let left = self.pop();
        let joined = match (left, right, text) {
            (Literal::Number(_), Literal::String(b), Literal::String(a)) => Literal::String(
                a.concat(b.as_str()),
            ),
            (Literal::String(a), Literal::Number(_), Literal::String(b)) => Literal::String(
                a.concat(b.as_str()),
            ),
            _ => Literal::Nil,
        };
        self.push(joined);
        None
    }

    /// Prints the value on top of the value stack.
    fn step_show(&mut self) -> (action: Option<Action>)
        requires
            old(self).valid(),
        ensures
            final(self).valid(),
            outcome(final(self)@, action) == machine::show(old(self)@),
    {
        match self.pop() {
            Literal::Number(bits) => {
                self.schedule(Task::Show);
                self.ask(Action::Text { number: bits }, Awaiting::Text)
            },
            value => self.ask(Action::Print { text: value.text() }, Awaiting::Nothing),
        }
    }

    /// Passes a mark.
    fn step_pass(&mut self, kind: MarkKind, scope: usize, height: usize) -> (action: Option<Action>)
        requires
            old(self).valid(),
        ensures
            final(self).valid(),
            outcome(final(self)@, action) == machine::pass(old(self)@, kind, scope, height),
    {
        match kind {
            MarkKind::Return => {
                let value = self.top();
                self.cut(height);
                self.push(value);
            },
            _ => {},
        }
        self.enter(scope);
        None
    }

    /// Ends the run because what is called cannot be called.
    fn uncallable(&mut self, line: usize, column: usize) -> (failed: Option<Action>)
        requires
            old(self).valid(),
        ensures
            final(self).valid(),
            outcome(final(self)@, failed) == old(self)@.fail(
                line,
                column,
                "Can only perform calls on functions and classes."@,
            ),
    {
        self.fail(
            line,
            column,
            String::from_str("Can only perform calls on functions and classes."),
        )
    }

    /// Enters a function of the program, whose `count` arguments are on top
    /// of the value stack, above the callee.
    fn invoke(
        &mut self,
        declaration: &'a Stmt,
        closure: usize,
        count: usize,
    ) -> (action: Option<Action>)
        requires
            old(self).valid(),
            closure < old(self)@.scopes.len(),
            old(self)@.scopes.len() < usize::MAX,
            count < old(self)@.values.len(),
            declaration matches Stmt::Function { params, .. } && params@.len() == count,
        ensures
            final(self).valid(),
            outcome(final(self)@, action) == machine::invoke(
                old(self)@,
                declaration,
                closure,
                count,
            ),
    {
        match declaration {
            Stmt::Function { params, body, .. } => {
                let base = self.values.len() - count;
                let caller = self.scope;
                let frame = self.environment.nest(closure);
                let ghost made = self.environment@;
                let mut next: usize = 0;
                while next < count
                    invariant
                        self.environment.wf(),
                        self.environment@.len() == made.len(),
                        frame < made.len(),
                        self.values == old(self).values,
                        self.tasks == old(self).tasks,
                        self.declarations == old(self).declarations,
                        self.scope == old(self).scope,
                        self.globals == old(self).globals,
                        self.repl == old(self).repl,
                        self.awaiting == old(self).awaiting,
                        next <= count,
                        count == params@.len(),
                        base + count == self.values@.len(),
                        base + count <= usize::MAX,
                        machine::entered(
                            self.environment@,
                            frame,
                            params@,
                            literal_views(self.values@),
                            base as int,
                            next as int,
                        ) == machine::entered(
                            made,
                            frame,
                            params@,
                            literal_views(old(self).values@),
                            base as int,
                            0,
                        ),
                    decreases count - next,
                {
                    let value = self.values[base + next].clone();
                    self.environment.define(frame, params[next].as_str(), value);
                    next += 1;
                }
                self.scope = frame;
                self.cut(base - 1);
                self.push(Literal::Nil);
                self.schedule(
                    Task::Mark { kind: MarkKind::Return, scope: caller, height: base - 1 },
                );
                self.schedule(Task::Run { statements: body, next: 0, keep: true });
                None
            },
            _ => None,
        }
    }

    /// Calls the callee that lies on the value stack below its `count`
    /// arguments.
    fn step_call(&mut self, count: usize, line: usize, column: usize) -> (action: Option<Action>)
        requires
            old(self).valid(),
        ensures
            final(self).valid(),
            outcome(final(self)@, action) == machine::call(old(self)@, count, line, column),
    {
        let callable = if count < self.values.len() {
            match &self.values[self.values.len() - 1 - count] {
                Literal::Callable(callable) => Some(*callable),
                _ => None,
            }
        } else {
            None
        };
        match callable {
            None => self.uncallable(line, column),
            Some(callable) => {
                if callable.arity() != count {
                    let mut message = String::from_str("Expected ");
                    message.append(decimal_text(callable.arity()).as_str());
                    message.append(" arguments but got ");
                    message.append(decimal_text(count).as_str());
                    message.append(".");
                    self.fail(line, column, message)
                } else {
                    match callable.code {
                        Code::Clock => {
                            let height = self.values.len() - 1 - count;
                            self.cut(height);
                            self.ask(Action::Clock, Awaiting::Number)
                        },
                        Code::Function { declaration, closure } => {
                            if declaration < self.declarations.len() && closure
                                < self.environment.len() && self.environment.len() < usize::MAX {
                                let found = self.declarations[declaration];
                                match found {
                                    Stmt::Function { params, .. } => {
                                        if params.len() == count {
                                            self.invoke(found, closure, count)
                                        } else {
                                            self.uncallable(line, column)
                                        }
                                    },
                                    _ => self.uncallable(line, column),
                                }
                            } else {
                                self.uncallable(line, column)
                            }
                        },
                    }
                }
            },
        }
    }

    /// Goes on with a call.
    fn step_arguments(&mut self, call: &'a Expr, next: usize) -> (action: Option<Action>)
        requires
            old(self).valid(),
        ensures
            final(self).valid(),
            outcome(final(self)@, action) == machine::arguments(old(self)@, call, next),
    {
        match call {
            Expr::Call { paren, arguments, .. } => {
                let callable = if next < self.values.len() {
                    match &self.values[self.values.len() - 1 - next] {
                        Literal::Callable(_) => true,
                        _ => false,
                    }
                } else {
                    false
                };
                if !callable {
                    self.uncallable(paren.line, paren.column)
                } else if next < arguments.len() {
                    self.push(Literal::Nil);
                    self.schedule(Task::Arguments { call, next: next + 1 });
                    self.schedule(Task::Execute { statement: &arguments[next], keep: true });
                    None
                } else {
                    self.step_call(next, paren.line, paren.column)
                }
            },
            _ => None,
        }
    }

    /// Starts the execution of a statement.
    fn step_execute(&mut self, statement: &'a Stmt, keep: bool) -> (action: Option<Action>)
        requires
            old(self).valid(),
        ensures
            final(self).valid(),
            outcome(final(self)@, action) == machine::execute(old(self)@, statement, keep),
    {
        match statement {
            Stmt::Print { expr } => {
                self.schedule(Task::Complete { statement, keep });
                self.schedule(Task::Evaluate(expr));
                None
            },
            Stmt::Var { expr, .. } => {
                self.schedule(Task::Complete { statement, keep });
                self.schedule(Task::Evaluate(expr));
                None
            },
            Stmt::Return { expr } => {
                self.schedule(Task::Complete { statement, keep });
                self.schedule(Task::Evaluate(expr));
                None
            },
            Stmt::Expression { expr } => {
                self.schedule(Task::Complete { statement, keep });
                self.schedule(Task::Evaluate(expr));
                None
            },
            Stmt::Conditional { condition, .. } => {
                self.schedule(Task::Complete { statement, keep });
                self.schedule(Task::Evaluate(condition));
                None
            },
            Stmt::While { condition, .. } => {
                let height = self.values.len();
                self.schedule(Task::Mark { kind: MarkKind::Loop, scope: self.scope, height });
                self.schedule(Task::Complete { statement, keep });
                self.schedule(Task::Evaluate(condition));
                None
            },
            Stmt::Break { line, column } => {
                if self.unwind(MarkKind::Loop) {
                    None
                } else {
                    self.fail(*line, *column, String::from_str("Can not break outside of a loop."))
                }
            },
            Stmt::Block { statements } => {
                if self.environment.len() < usize::MAX {
                    let outer = self.scope;
                    let height = self.values.len();
                    self.scope = self.environment.nest(outer);
                    self.schedule(Task::Mark { kind: MarkKind::Restore, scope: outer, height });
                    self.schedule(Task::Run { statements, next: 0, keep: false });
                }
                None
            },
            Stmt::Function { name, params, .. } => {
                let callable = Literal::Callable(
                    Callable::new(
                        params.len(),
                        Code::Function {
                            declaration: self.declarations.len(),
                            closure: self.scope,
                        },
                    ),
                );
                self.declarations.push(statement);
                self.environment.capture(self.scope);
                match name {
                    Some(name) => {
                        self.environment.define(self.scope, name.as_str(), callable);
                    },
                    None => {
                        if keep {
                            self.pop();
                            self.push(callable);
                        }
                    },
                }
                None
            },
        }
    }

    /// Finishes a statement, the value of whose expression is on the value
    /// stack.
    fn step_complete(&mut self, statement: &'a Stmt, keep: bool) -> (action: Option<Action>)
        requires
            old(self).valid(),
        ensures
            final(self).valid(),
            outcome(final(self)@, action) == machine::complete(old(self)@, statement, keep),
    {
        match statement {
            Stmt::Print { .. } => {
                self.schedule(Task::Show);
                None
            },
            Stmt::Var { name, .. } => {
                let value = self.pop();
                self.environment.define(self.scope, name.as_str(), value);
                None
            },
            Stmt::Return { .. } => {
                let value = self.pop();
                if self.unwind(MarkKind::Return) {
                    self.push(value);
                    None
                } else {
                    self.finish(value)
                }
            },
            Stmt::Expression { .. } => {
                let value = self.pop();
                if keep {
                    self.pop();
                    self.push(value.clone());
                }
                if self.repl {
                    self.push(value);
                    self.schedule(Task::Show);
                }
                None
            },
            Stmt::Conditional { then_branch, else_branch, .. } => {
                let value = self.pop();
                if value.is_truthy() {
                    self.schedule(Task::Execute { statement: &**then_branch, keep: false });
                } else {
                    match else_branch {
                        Some(branch) => {
                            self.schedule(Task::Execute { statement: &**branch, keep: false });
                        },
                        None => {},
                    }
                }
                None
            },
            Stmt::While { condition, body } => {
                let value = self.pop();
                if value.is_truthy() {
                    self.schedule(Task::Complete { statement, keep });
                    self.schedule(Task::Evaluate(condition));
                    self.schedule(Task::Execute { statement: &**body, keep: false });
                }
                None
            },
            _ => {
                self.pop();
                None
            },
        }
    }

    /// Takes one step.
    fn step(&mut self) -> (action: Option<Action>)
        requires
            old(self).valid(),
        ensures
            final(self).valid(),
            outcome(final(self)@, action) == machine::step(old(self)@),
    {
        match self.tasks.pop() {
            None => {
                let value = self.top();
                self.finish(value)
            },
            Some(task) => {
                assert(self@ == (State { tasks: old(self)@.tasks.drop_last(), ..old(self)@ }));
                match task {
                    Task::Evaluate(expr) => self.step_evaluate(expr),
                    Task::Apply(expr) => self.step_apply(expr),
                    Task::Join(expr) => self.step_join(expr),
                    Task::Arguments { call, next } => self.step_arguments(call, next),
                    Task::Call { count, line, column } => self.step_call(count, line, column),
                    Task::Execute { statement, keep } => self.step_execute(statement, keep),
                    Task::Complete { statement, keep } => self.step_complete(statement, keep),
                    Task::Run { statements, next, keep } => {
                        if next < statements.len() {
                            self.schedule(Task::Run { statements, next: next + 1, keep });
                            self.schedule(Task::Execute { statement: &statements[next], keep });
                        }
                        None
                    },
                    Task::Show => self.step_show(),
                    Task::Mark { kind, scope, height } => self.step_pass(kind, scope, height),
                }
            },
        }
    }

    /// An interpreter with nothing to do. Its globals hold `clock`, a
    /// function without parameters that gives the time. With `repl`, the
    /// value of every expression statement is printed.
    pub fn new(repl: bool) -> (interpreter: Interpreter<'a>)
        ensures
            interpreter.wf(),
            interpreter@ == machine::initial(repl),
    {
        let mut environment = Environment::new();
        let globals = environment.nest(0);
        environment.define(
            globals,
            "clock",
            Literal::Callable(Callable::new(0, Code::Clock)),
        );
        let interpreter = Interpreter {
            environment,
            scope: globals,
            globals,
            declarations: Vec::new(),
            tasks: Vec::new(),
            values: Vec::new(),
            repl,
            awaiting: Awaiting::Nothing,
        };
        proof {
            assert(interpreter@.values =~= Seq::empty());
            assert(interpreter@.tasks =~= Seq::empty());
            assert(interpreter@.declarations =~= Seq::empty());
            lemma_initial_is_orderly(interpreter@, repl);
        }
        interpreter
    }

    /// How many frames there are.
    pub fn frames(&self) -> (count: usize)
        ensures
            count == self@.scopes.len(),
    {
        self.environment.len()
    }

    /// What the interpreter waits for from its host.
    pub fn awaits(&self) -> (awaiting: Awaiting)
        ensures
            awaiting == self@.awaiting,
    {
        self.awaiting
    }

    /// Whether the reply is of the kind that the interpreter waits for.
    pub fn accepts(&self, reply: &Reply) -> (accepted: bool)
        ensures
            accepted == machine::accepted(self@, reply@),
    {
        match (self.awaiting, reply) {
            (Awaiting::Nothing, Reply::Nothing) => true,
            (Awaiting::Number, Reply::Number(_)) => true,
            (Awaiting::Text, Reply::Text(_)) => true,
            _ => false,
        }
    }

    /// Leaves the statements, and nothing else, to be run in the globals.
    pub fn interpret(&mut self, statements: &'a Vec<Stmt>)
        requires
            old(self).wf(),
        ensures
            final(self).wf(),
            final(self)@ == machine::loaded(old(self)@, statements),
    {
        self.reset();
        self.push(Literal::Nil);
        self.schedule(Task::Run { statements, next: 0, keep: true });
        proof {
            lemma_loaded_is_orderly(old(self)@, statements);
        }
    }

    /// Leaves a call of the callable with the arguments, and nothing else,
    /// to be made. What is wrong with the call is reported at line 0.
    pub fn call(&mut self, callable: Callable, arguments: Vec<Literal>)
        requires
            old(self).wf(),
        ensures
            final(self).wf(),
            final(self)@ == machine::loaded_call(old(self)@, callable, literal_views(arguments@)),
    {
        let ghost given = literal_views(arguments@);
        let mut arguments = arguments;
        let count = arguments.len();
        self.reset();
        self.values.push(Literal::Callable(callable));
        self.values.append(&mut arguments);
        self.tasks.push(Task::Call { count, line: 0, column: 0 });
        proof {
            assert(self@.values =~= seq![Value::Callable(callable)] + given);
            lemma_loaded_call_is_orderly(old(self)@, callable, given);
        }
    }

    /// Leaves the expression, and nothing else, to be evaluated in the
    /// globals.
    pub fn evaluate(&mut self, expr: &'a Expr)
        requires
            old(self).wf(),
        ensures
            final(self).wf(),
            final(self)@ == machine::loaded_expression(old(self)@, expr),
    {
        self.reset();
        self.schedule(Task::Evaluate(expr));
        proof {
            lemma_loaded_expression_is_orderly(old(self)@, expr);
        }
    }

    /// Takes the host's reply and runs on, for `budget` steps at most, up to
    /// the next thing to ask or tell the host.
    #[verifier::rlimit(30)]
    pub fn run(&mut self, reply: Reply, budget: usize) -> (action: Action)
        requires
            old(self).wf(),
            machine::accepted(old(self)@, reply@),
        ensures
            final(self).wf(),
            outcome(final(self)@, Some(action)) == machine::run(
                machine::answered(old(self)@, reply@),
                budget as nat,
            ),
    {
        match (self.awaiting, reply) {
            (Awaiting::Number, Reply::Number(bits)) => {
                self.push(Literal::Number(bits));
            },
            (Awaiting::Text, Reply::Text(text)) => {
                self.push(Literal::String(text));
            },
            _ => {},
        }
        self.awaiting = Awaiting::Nothing;
        proof {
            lemma_answered_keeps_order(old(self)@, reply@);
            lemma_run_keeps_order(machine::answered(old(self)@, reply@), budget as nat);
        }
        let mut left = budget;
        while left > 0
            invariant
                self.valid(),
                orderly(machine::run(machine::answered(old(self)@, reply@), budget as nat).state),
                machine::run(self@, left as nat) == machine::run(
                    machine::answered(old(self)@, reply@),
                    budget as nat,
                ),
            decreases left,
        {
            match self.step() {
                Some(action) => {
                    return action;
                },
                None => {},
            }
            left -= 1;
        }
        Action::Running
    }
}

} // verus!
