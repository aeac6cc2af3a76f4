//! The life of frames: the scopes that the machine goes back to, and the
//! scopes that functions were declared in, are always there.
//!
//! The machine releases frames when it leaves a block, a loop or a call. It
//! leaves marks among its tasks that say which scope to go back to; the
//! first law below is that each mark names a scope no younger than the marks
//! under it and no older than the scope in force, so that no scope is
//! released while a mark still names it. A function names the scope in force
//! when it was declared; the second law is that a frame in which a function
//! was declared stays where it is, below the same parent, for good.
use vstd::prelude::*;
use crate::environment::{bound, captured, defined, extended, released, Scope};
use crate::expressions::{Expr, Value};
use crate::laws::{lemma_holder_is_older, lemma_release_keeps};
use crate::machine;
use crate::machine::{nearest, step, MarkKind, ReplyView, State, Task};
use crate::statements::Stmt;

verus! {

/// Whether every mark among the tasks names a scope from the globals up to
/// `limit`, and no scope younger than a mark above it.
pub open spec fn marks_below(tasks: Seq<Task>, limit: usize, globals: usize) -> bool
    decreases tasks.len(),
{
    if tasks.len() == 0 {
        true
    } else {
        match tasks.last() {
            Task::Mark { scope, .. } => globals <= scope <= limit && marks_below(
                tasks.drop_last(),
                scope,
                globals,
            ),
            _ => marks_below(tasks.drop_last(), limit, globals),
        }
    }
}

/// Whether the scope in force and the globals are there, and the marks are
/// in order below the scope in force.
pub open spec fn orderly(state: State) -> bool {
    &&& state.globals <= state.scope < state.scopes.len()
    &&& marks_below(state.tasks, state.scope, state.globals)
}

/// Releasing the frames above a scope leaves the scope.
pub proof fn lemma_release_bounds(scopes: Seq<Scope>, above: usize)
    ensures
        above < scopes.len() ==> above < released(scopes, above).len(),
{
    lemma_release_keeps(scopes, above);
}

/// One more task that is no mark changes nothing of the order of the marks.
pub proof fn lemma_marks_below_push(tasks: Seq<Task>, task: Task, limit: usize, globals: usize)
    ensures
        marks_below(tasks.push(task), limit, globals) == match task {
            Task::Mark { scope, .. } => globals <= scope <= limit && marks_below(
                tasks,
                scope,
                globals,
            ),
            _ => marks_below(tasks, limit, globals),
        },
{
    assert(tasks.push(task).drop_last() =~= tasks);
}

/// The tasks under the nearest mark of a kind are in order below the scope
/// of that mark, which is there.
pub proof fn lemma_marks_below_nearest(
    tasks: Seq<Task>,
    kind: MarkKind,
    limit: usize,
    globals: usize,
)
    requires
        marks_below(tasks, limit, globals),
    ensures
        nearest(tasks, kind) matches Some(place) ==> 0 <= place < tasks.len() && (
        tasks[place] matches Task::Mark { scope, .. } && globals <= scope <= limit && marks_below(
            tasks.take(place),
            scope,
            globals,
        )),
    decreases tasks.len(),
{
    if tasks.len() > 0 {
        let rest = tasks.drop_last();
        match tasks.last() {
            Task::Mark { kind: found, scope, .. } => {
                if found == kind {
                    assert(tasks.take(tasks.len() - 1) =~= rest);
                } else {
                    lemma_marks_below_nearest(rest, kind, scope, globals);
                    if let Some(place) = nearest(rest, kind) {
                        assert(tasks.take(place) =~= rest.take(place));
                    }
                }
            },
            _ => {
                lemma_marks_below_nearest(rest, kind, limit, globals);
                if let Some(place) = nearest(rest, kind) {
                    assert(tasks.take(place) =~= rest.take(place));
                }
            },
        }
    }
}

/// Going back to a scope that a mark names keeps the order.
pub proof fn lemma_enter_keeps_order<'a>(state: State<'a>, scope: usize)
    requires
        state.globals <= scope < state.scopes.len(),
        state.globals < state.scopes.len(),
        marks_below(state.tasks, scope, state.globals),
    ensures
        orderly(state.enter(scope)),
        state.enter(scope).scope == scope,
{
    lemma_release_keeps(state.scopes, scope);
}

/// Unwinding to a mark keeps the order.
pub proof fn lemma_unwind_keeps_order<'a>(state: State<'a>, kind: MarkKind)
    requires
        orderly(state),
    ensures
        state.unwind(kind) matches Some(after) ==> orderly(after),
{
    lemma_marks_below_nearest(state.tasks, kind, state.scope, state.globals);
    if let Some(place) = nearest(state.tasks, kind) {
        if let Task::Mark { scope, height, .. } = state.tasks[place] {
            let cut = State {
                tasks: state.tasks.take(place),
                values: machine::cut(state.values, height),
                ..state
            };
            lemma_enter_keeps_order(cut, scope);
        }
    }
}

/// The state between two runs is in order.
pub proof fn lemma_idle_is_orderly<'a>(state: State<'a>)
    requires
        state.globals < state.scopes.len(),
    ensures
        orderly(state.idle()),
{
    lemma_release_keeps(state.scopes, state.globals);
}

/// Setting the parameters of a call makes no frame and drops none.
pub proof fn lemma_entered_keeps_length(
    scopes: Seq<Scope>,
    frame: usize,
    params: Seq<String>,
    values: Seq<Value>,
    base: int,
    next: int,
)
    requires
        frame < scopes.len(),
    ensures
        machine::entered(scopes, frame, params, values, base, next).len() == scopes.len(),
    decreases params.len() - next,
{
    if 0 <= next < params.len() && 0 <= base + next < values.len() {
        lemma_entered_keeps_length(
            defined(scopes, frame, params[next]@, values[base + next]),
            frame,
            params,
            values,
            base,
            next + 1,
        );
    }
}

/// What one more task does to the order of the marks, for all tasks.
pub proof fn lemma_pushes(globals: usize)
    ensures
        forall|tasks: Seq<Task>, task: Task, limit: usize| #[trigger]
            marks_below(tasks.push(task), limit, globals) == match task {
                Task::Mark { scope, .. } => globals <= scope <= limit && marks_below(
                    tasks,
                    scope,
                    globals,
                ),
                _ => marks_below(tasks, limit, globals),
            },
{
    assert forall|tasks: Seq<Task>, task: Task, limit: usize| #[trigger]
        marks_below(tasks.push(task), limit, globals) == match task {
            Task::Mark { scope, .. } => globals <= scope <= limit && marks_below(
                tasks,
                scope,
                globals,
            ),
            _ => marks_below(tasks, limit, globals),
        } by {
        lemma_marks_below_push(tasks, task, limit, globals);
    }
}

proof fn lemma_evaluate_keeps_order<'a>(state: State<'a>, expr: &'a Expr)
    requires
        orderly(state),
    ensures
        orderly(machine::evaluate(state, expr).state),
{
    lemma_pushes(state.globals);
    lemma_idle_is_orderly(state);
}

proof fn lemma_operate_keeps_order<'a>(
    state: State<'a>,
    expr: &'a Expr,
    kind: crate::tokens::TokenKind,
    line: usize,
    column: usize,
    left: Value,
    right: Value,
)
    requires
        orderly(state),
    ensures
        orderly(machine::operate(state, expr, kind, line, column, left, right).state),
{
    lemma_pushes(state.globals);
    lemma_idle_is_orderly(state);
}

proof fn lemma_apply_keeps_order<'a>(state: State<'a>, expr: &'a Expr)
    requires
        orderly(state),
    ensures
        orderly(machine::apply(state, expr).state),
{
    lemma_pushes(state.globals);
    lemma_idle_is_orderly(state);
    match expr {
        Expr::Assign { name, .. } => {
            lemma_holder_is_older(state.scopes, state.scope, name.text@);
        },
        Expr::Binary { operator, .. } => {
            lemma_operate_keeps_order(
                state.pop().pop(),
                expr,
                operator.kind,
                operator.line,
                operator.column,
                state.pop().top(),
                state.top(),
            );
        },
        _ => {},
    }
}

proof fn lemma_join_keeps_order<'a>(state: State<'a>, expr: &'a Expr)
    requires
        orderly(state),
    ensures
        orderly(machine::join(state, expr).state),
{
}

proof fn lemma_invoke_keeps_order<'a>(
    state: State<'a>,
    declaration: &'a Stmt,
    closure: usize,
    count: usize,
)
    requires
        orderly(state),
        closure < state.scopes.len() < usize::MAX,
    ensures
        orderly(machine::invoke(state, declaration, closure, count).state),
{
    lemma_pushes(state.globals);
    match declaration {
        Stmt::Function { params, .. } => {
            let frame = state.scopes.len() as usize;
            lemma_entered_keeps_length(
                extended(state.scopes, Some(closure)),
                frame,
                params@,
                state.values,
                state.values.len() - count,
                0,
            );
        },
        _ => {},
    }
}

proof fn lemma_call_keeps_order<'a>(state: State<'a>, count: usize, line: usize, column: usize)
    requires
        orderly(state),
    ensures
        orderly(machine::call(state, count, line, column).state),
{
    lemma_idle_is_orderly(state);
    if count < state.values.len() {
        if let Value::Callable(callable) = state.values[state.values.len() - 1 - count] {
            if let crate::callable::Code::Function { declaration, closure } = callable.code {
                if declaration < state.declarations.len() && closure < state.scopes.len()
                    && state.scopes.len() < usize::MAX {
                    lemma_invoke_keeps_order(
                        state,
                        state.declarations[declaration as int],
                        closure,
                        count,
                    );
                }
            }
        }
    }
}

proof fn lemma_arguments_keeps_order<'a>(state: State<'a>, call: &'a Expr, next: usize)
    requires
        orderly(state),
    ensures
        orderly(machine::arguments(state, call, next).state),
{
    lemma_pushes(state.globals);
    lemma_idle_is_orderly(state);
    match call {
        Expr::Call { paren, .. } => {
            lemma_call_keeps_order(state, next, paren.line, paren.column);
        },
        _ => {},
    }
}

proof fn lemma_execute_keeps_order<'a>(state: State<'a>, statement: &'a Stmt, keep: bool)
    requires
        orderly(state),
    ensures
        orderly(machine::execute(state, statement, keep).state),
{
    lemma_pushes(state.globals);
    lemma_idle_is_orderly(state);
    lemma_unwind_keeps_order(state, MarkKind::Loop);
}

proof fn lemma_complete_keeps_order<'a>(state: State<'a>, statement: &'a Stmt, keep: bool)
    requires
        orderly(state),
    ensures
        orderly(machine::complete(state, statement, keep).state),
{
    lemma_pushes(state.globals);
    lemma_idle_is_orderly(state);
    lemma_unwind_keeps_order(state.pop(), MarkKind::Return);
}

proof fn lemma_show_keeps_order<'a>(state: State<'a>)
    requires
        orderly(state),
    ensures
        orderly(machine::show(state).state),
{
    lemma_pushes(state.globals);
}

proof fn lemma_pass_keeps_order<'a>(state: State<'a>, kind: MarkKind, scope: usize, height: usize)
    requires
        state.globals <= scope <= state.scope < state.scopes.len(),
        marks_below(state.tasks, scope, state.globals),
    ensures
        orderly(machine::pass(state, kind, scope, height).state),
{
    let kept = State { values: machine::cut(state.values, height).push(state.top()), ..state };
    lemma_enter_keeps_order(kept, scope);
    lemma_enter_keeps_order(state, scope);
}

/// A step keeps the order: the scope in force is there, and so is every
/// scope that a mark names.
pub proof fn lemma_step_keeps_order<'a>(state: State<'a>)
    requires
        orderly(state),
    ensures
        orderly(step(state).state),
{
    lemma_pushes(state.globals);
    lemma_idle_is_orderly(state);
    if state.tasks.len() > 0 {
        let rest = State { tasks: state.tasks.drop_last(), ..state };
        match state.tasks.last() {
            Task::Evaluate(expr) => lemma_evaluate_keeps_order(rest, expr),
            Task::Apply(expr) => lemma_apply_keeps_order(rest, expr),
            Task::Join(expr) => lemma_join_keeps_order(rest, expr),
            Task::Arguments { call, next } => lemma_arguments_keeps_order(rest, call, next),
            Task::Call { count, line, column } => lemma_call_keeps_order(rest, count, line, column),
            Task::Execute { statement, keep } => lemma_execute_keeps_order(rest, statement, keep),
            Task::Complete { statement, keep } => lemma_complete_keeps_order(rest, statement, keep),
            Task::Run { .. } => {},
            Task::Show => lemma_show_keeps_order(rest),
            Task::Mark { kind, scope, height } => lemma_pass_keeps_order(rest, kind, scope, height),
        }
    }
}

/// Taking the host's reply keeps the order.
pub proof fn lemma_answered_keeps_order<'a>(state: State<'a>, reply: ReplyView)
    requires
        orderly(state),
    ensures
        orderly(machine::answered(state, reply)),
{
}

/// A run keeps the order.
pub proof fn lemma_run_keeps_order<'a>(state: State<'a>, budget: nat)
    requires
        orderly(state),
    ensures
        orderly(machine::run(state, budget).state),
    decreases budget,
{
    if budget > 0 {
        let next = step(state);
        lemma_step_keeps_order(state);
        if next.action is None {
            lemma_run_keeps_order(next.state, (budget - 1) as nat);
            assert(machine::run(state, budget) == machine::run(next.state, (budget - 1) as nat));
        } else {
            assert(machine::run(state, budget) == next);
        }
    }
}

/// A new machine is in order.
pub proof fn lemma_initial_is_orderly<'a>(state: State<'a>, repl: bool)
    requires
        state == machine::initial(repl),
    ensures
        orderly(state),
{
}

/// A machine that is given statements to run is in order.
pub proof fn lemma_loaded_is_orderly<'a>(state: State<'a>, statements: &'a Vec<Stmt>)
    requires
        orderly(state),
    ensures
        orderly(machine::loaded(state, statements)),
{
    lemma_pushes(state.globals);
    lemma_idle_is_orderly(state);
}

/// A machine that is given an expression to evaluate is in order.
pub proof fn lemma_loaded_expression_is_orderly<'a>(state: State<'a>, expr: &'a Expr)
    requires
        orderly(state),
    ensures
        orderly(machine::loaded_expression(state, expr)),
{
    lemma_pushes(state.globals);
    lemma_idle_is_orderly(state);
}

/// A machine that is given a call to make is in order.
pub proof fn lemma_loaded_call_is_orderly<'a>(
    state: State<'a>,
    callable: crate::callable::Callable,
    arguments: Seq<Value>,
)
    requires
        orderly(state),
    ensures
        orderly(machine::loaded_call(state, callable, arguments)),
{
    lemma_pushes(state.globals);
    lemma_idle_is_orderly(state);
}

/// Whether every frame of `before` in which a function was declared is
/// still there in `after`, under its number and below its parent.
pub open spec fn persists(before: Seq<Scope>, after: Seq<Scope>) -> bool {
    forall|i: int|
        0 <= i < before.len() && (#[trigger] before[i]).captured ==> i < after.len()
            && after[i].captured && after[i].parent == before[i].parent
}

/// What persists through one change persists through a second one.
pub proof fn lemma_persists_on(first: Seq<Scope>, second: Seq<Scope>, third: Seq<Scope>)
    requires
        persists(first, second),
        persists(second, third),
    ensures
        persists(first, third),
{
    assert forall|i: int| 0 <= i < first.len() && (#[trigger] first[i]).captured implies i
        < third.len() && third[i].captured && third[i].parent == first[i].parent by {
        assert(second[i].captured);
    }
}

/// Setting a variable, declaring a function, making a frame and releasing
/// frames all leave the frames in which functions were declared.
pub proof fn lemma_changes_persist(scopes: Seq<Scope>)
    ensures
        persists(scopes, scopes),
        forall|frame: usize, name: Seq<char>, value: Value|
            frame < scopes.len() ==> persists(scopes, #[trigger] defined(scopes, frame, name, value)),
        forall|scope: usize, name: Seq<char>, value: Value|
            scope < scopes.len() ==> persists(scopes, #[trigger] bound(scopes, scope, name, value)),
        forall|scope: usize| persists(scopes, #[trigger] captured(scopes, scope)),
        forall|parent: Option<usize>| persists(scopes, #[trigger] extended(scopes, parent)),
        forall|above: usize| persists(scopes, #[trigger] released(scopes, above)),
{
    assert forall|scope: usize, name: Seq<char>, value: Value| scope < scopes.len() implies persists(
        scopes,
        #[trigger] bound(scopes, scope, name, value),
    ) by {
        lemma_holder_is_older(scopes, scope, name);
    }
    assert forall|above: usize| persists(scopes, #[trigger] released(scopes, above)) by {
        lemma_release_keeps(scopes, above);
    }
}

/// Setting the parameters of a call leaves the frames in which functions
/// were declared.
pub proof fn lemma_entered_persists(
    scopes: Seq<Scope>,
    frame: usize,
    params: Seq<String>,
    values: Seq<Value>,
    base: int,
    next: int,
)
    requires
        frame < scopes.len(),
    ensures
        persists(scopes, machine::entered(scopes, frame, params, values, base, next)),
    decreases params.len() - next,
{
    lemma_changes_persist(scopes);
    if 0 <= next < params.len() && 0 <= base + next < values.len() {
        let one = defined(scopes, frame, params[next]@, values[base + next]);
        lemma_entered_persists(one, frame, params, values, base, next + 1);
        lemma_persists_on(
            scopes,
            one,
            machine::entered(one, frame, params, values, base, next + 1),
        );
    }
}

proof fn lemma_invoke_persists<'a>(
    state: State<'a>,
    declaration: &'a Stmt,
    closure: usize,
    count: usize,
)
    requires
        orderly(state),
        closure < state.scopes.len() < usize::MAX,
    ensures
        persists(state.scopes, machine::invoke(state, declaration, closure, count).state.scopes),
{
    lemma_changes_persist(state.scopes);
    match declaration {
        Stmt::Function { params, .. } => {
            let made = extended(state.scopes, Some(closure));
            let frame = state.scopes.len() as usize;
            let base = state.values.len() - count;
            lemma_entered_persists(made, frame, params@, state.values, base, 0);
            lemma_persists_on(
                state.scopes,
                made,
                machine::entered(made, frame, params@, state.values, base, 0),
            );
        },
        _ => {},
    }
}

proof fn lemma_call_persists<'a>(state: State<'a>, count: usize, line: usize, column: usize)
    requires
        orderly(state),
    ensures
        persists(state.scopes, machine::call(state, count, line, column).state.scopes),
{
    lemma_changes_persist(state.scopes);
    if count < state.values.len() {
        if let Value::Callable(callable) = state.values[state.values.len() - 1 - count] {
            if let crate::callable::Code::Function { declaration, closure } = callable.code {
                if declaration < state.declarations.len() && closure < state.scopes.len()
                    && state.scopes.len() < usize::MAX {
                    lemma_invoke_persists(
                        state,
                        state.declarations[declaration as int],
                        closure,
                        count,
                    );
                }
            }
        }
    }
}

proof fn lemma_execute_persists<'a>(state: State<'a>, statement: &'a Stmt, keep: bool)
    requires
        orderly(state),
    ensures
        persists(state.scopes, machine::execute(state, statement, keep).state.scopes),
{
    lemma_changes_persist(state.scopes);
    match statement {
        Stmt::Function { name, .. } => {
            let marked = captured(state.scopes, state.scope);
            lemma_changes_persist(marked);
            if let Some(name) = name {
                let callable = machine::execute(state, statement, keep).state.scopes[state.scope
                    as int].variables[name@];
                lemma_persists_on(
                    state.scopes,
                    marked,
                    defined(marked, state.scope, name@, callable),
                );
            }
        },
        _ => {},
    }
}

/// A step leaves the frames in which functions were declared: a function
/// finds the scope of its declaration whenever it is called.
pub proof fn lemma_step_persists<'a>(state: State<'a>)
    requires
        orderly(state),
    ensures
        persists(state.scopes, step(state).state.scopes),
{
    lemma_changes_persist(state.scopes);
    if state.tasks.len() > 0 {
        let rest = State { tasks: state.tasks.drop_last(), ..state };
        lemma_pushes(state.globals);
        match state.tasks.last() {
            Task::Arguments { call, next } => {
                if let Expr::Call { paren, .. } = call {
                    lemma_call_persists(rest, next, paren.line, paren.column);
                }
            },
            Task::Call { count, line, column } => {
                lemma_call_persists(rest, count, line, column);
            },
            Task::Execute { statement, keep } => {
                lemma_execute_persists(rest, statement, keep);
            },
            _ => {},
        }
    }
}

/// A run leaves the frames in which functions were declared.
pub proof fn lemma_run_persists<'a>(state: State<'a>, budget: nat)
    requires
        orderly(state),
    ensures
        persists(state.scopes, machine::run(state, budget).state.scopes),
    decreases budget,
{
    lemma_changes_persist(state.scopes);
    if budget > 0 {
        lemma_step_persists(state);
        lemma_step_keeps_order(state);
        if step(state).action is None {
            lemma_run_persists(step(state).state, (budget - 1) as nat);
            lemma_persists_on(
                state.scopes,
                step(state).state.scopes,
                machine::run(step(state).state, (budget - 1) as nat).state.scopes,
            );
        }
    }
}

/// A function is declared in a frame that is there and is marked as holding
/// one: the function that the step declares names the scope in force, and
/// after the step a function has been declared in that scope.
pub proof fn lemma_declaration_captures<'a>(state: State<'a>, statement: &'a Stmt, keep: bool)
    requires
        orderly(state),
        state.tasks.len() > 0,
        state.tasks.last() == (Task::Execute { statement, keep }),
        statement is Function,
    ensures
        step(state).state.scope == state.scope,
        state.scope < step(state).state.scopes.len(),
        step(state).state.scopes[state.scope as int].captured,
{
}

} // verus!
