//! Evaluation in context: what the machine does with the tasks on top of its
//! stack does not depend on the tasks under them.
//!
//! So what an expression or a statement does when it is run alone is what
//! it does as a part of any program, for as long as it neither fails nor
//! leaves through a `break` or a `return` that goes past it. The laws of a
//! whole evaluation are proved from that.
use vstd::prelude::*;
use crate::callable::{Callable, Code};
use crate::environment::{defined, extended, Scope};
use crate::expressions::{Expr, Value};
use crate::lifetimes::{
    lemma_answered_keeps_order, lemma_marks_below_nearest, lemma_release_bounds,
    lemma_step_keeps_order, marks_below, orderly,
};
use crate::machine;
use crate::machine::{
    answered, nearest, step, ActionView, Awaiting, MarkKind, ReplyView, State, Step, Task,
};
use crate::statements::Stmt;
use crate::tokens::TokenKind;

verus! {

/// The state with the tasks `base` under its own.
pub open spec fn under<'a>(state: State<'a>, base: Seq<Task<'a>>) -> State<'a> {
    State { tasks: base + state.tasks, ..state }
}

/// The outcome of a step, with the tasks `base` under those of its state.
pub open spec fn lifted<'a>(outcome: Step<'a>, base: Seq<Task<'a>>) -> Step<'a> {
    Step { state: under(outcome.state, base), action: outcome.action }
}

/// Whether the step leaves the run going: it neither ends the run nor fails.
pub open spec fn goes_on(outcome: Step) -> bool {
    match outcome.action {
        Some(ActionView::Finished { .. }) => false,
        Some(ActionView::Failed { .. }) => false,
        _ => true,
    }
}

/// A task pushed on tasks that lie on others is pushed on the whole.
pub proof fn lemma_push_under<'a>(base: Seq<Task<'a>>)
    ensures
        forall|tasks: Seq<Task<'a>>, task: Task<'a>| #[trigger]
            (base + tasks.push(task)) == (base + tasks).push(task),
{
    assert forall|tasks: Seq<Task<'a>>, task: Task<'a>| #[trigger]
        (base + tasks.push(task)) == (base + tasks).push(task) by {
        assert((base + tasks.push(task)) =~= (base + tasks).push(task));
    }
}

/// The nearest mark among tasks that lie on others is the nearest one among
/// the tasks on top, if there is one.
pub proof fn lemma_nearest_under<'a>(base: Seq<Task<'a>>, tasks: Seq<Task<'a>>, kind: MarkKind)
    ensures
        nearest(tasks, kind) matches Some(place) ==> 0 <= place < tasks.len() && nearest(
            base + tasks,
            kind,
        ) == Some(base.len() + place) && (base + tasks).take(base.len() + place) == base
            + tasks.take(place) && (base + tasks)[base.len() + place] == tasks[place],
    decreases tasks.len(),
{
    if tasks.len() > 0 {
        assert((base + tasks).drop_last() =~= base + tasks.drop_last());
        assert((base + tasks).last() == tasks.last());
        lemma_nearest_under(base, tasks.drop_last(), kind);
        if let Some(place) = nearest(tasks, kind) {
            assert((base + tasks).take(base.len() + place) =~= base + tasks.take(place));
        }
    }
}

/// Unwinding to a mark among the tasks on top does not depend on the tasks
/// under them.
pub proof fn lemma_unwind_is_local<'a>(state: State<'a>, base: Seq<Task<'a>>, kind: MarkKind)
    ensures
        state.unwind(kind) matches Some(after) ==> under(state, base).unwind(kind) == Some(
            under(after, base),
        ),
{
    lemma_nearest_under(base, state.tasks, kind);
}

proof fn lemma_evaluate_is_local<'a>(state: State<'a>, expr: &'a Expr, base: Seq<Task<'a>>)
    ensures
        goes_on(machine::evaluate(state, expr)) ==> machine::evaluate(under(state, base), expr)
            == lifted(machine::evaluate(state, expr), base),
{
    lemma_push_under(base);
}

proof fn lemma_operate_is_local<'a>(
    state: State<'a>,
    expr: &'a Expr,
    kind: TokenKind,
    line: usize,
    column: usize,
    left: Value,
    right: Value,
    base: Seq<Task<'a>>,
)
    ensures
        goes_on(machine::operate(state, expr, kind, line, column, left, right))
            ==> machine::operate(under(state, base), expr, kind, line, column, left, right)
            == lifted(machine::operate(state, expr, kind, line, column, left, right), base),
{
    lemma_push_under(base);
}

proof fn lemma_apply_is_local<'a>(state: State<'a>, expr: &'a Expr, base: Seq<Task<'a>>)
    ensures
        goes_on(machine::apply(state, expr)) ==> machine::apply(under(state, base), expr)
            == lifted(machine::apply(state, expr), base),
{
    lemma_push_under(base);
    if let Expr::Binary { operator, .. } = expr {
        lemma_operate_is_local(
            state.pop().pop(),
            expr,
            operator.kind,
            operator.line,
            operator.column,
            state.pop().top(),
            state.top(),
            base,
        );
    }
}

proof fn lemma_join_is_local<'a>(state: State<'a>, expr: &'a Expr, base: Seq<Task<'a>>)
    ensures
        machine::join(under(state, base), expr) == lifted(machine::join(state, expr), base),
{
}

proof fn lemma_invoke_is_local<'a>(
    state: State<'a>,
    declaration: &'a Stmt,
    closure: usize,
    count: usize,
    base: Seq<Task<'a>>,
)
    ensures
        machine::invoke(under(state, base), declaration, closure, count) == lifted(
            machine::invoke(state, declaration, closure, count),
            base,
        ),
{
    lemma_push_under(base);
}

proof fn lemma_call_is_local<'a>(
    state: State<'a>,
    count: usize,
    line: usize,
    column: usize,
    base: Seq<Task<'a>>,
)
    ensures
        goes_on(machine::call(state, count, line, column)) ==> machine::call(
            under(state, base),
            count,
            line,
            column,
        ) == lifted(machine::call(state, count, line, column), base),
{
    if count < state.values.len() {
        if let Value::Callable(callable) = state.values[state.values.len() - 1 - count] {
            if let crate::callable::Code::Function { declaration, closure } = callable.code {
                if declaration < state.declarations.len() {
                    lemma_invoke_is_local(
                        state,
                        state.declarations[declaration as int],
                        closure,
                        count,
                        base,
                    );
                }
            }
        }
    }
}

proof fn lemma_arguments_is_local<'a>(
    state: State<'a>,
    call: &'a Expr,
    next: usize,
    base: Seq<Task<'a>>,
)
    ensures
        goes_on(machine::arguments(state, call, next)) ==> machine::arguments(
            under(state, base),
            call,
            next,
        ) == lifted(machine::arguments(state, call, next), base),
{
    lemma_push_under(base);
    if let Expr::Call { paren, .. } = call {
        lemma_call_is_local(state, next, paren.line, paren.column, base);
    }
}

proof fn lemma_execute_is_local<'a>(
    state: State<'a>,
    statement: &'a Stmt,
    keep: bool,
    base: Seq<Task<'a>>,
)
    ensures
        goes_on(machine::execute(state, statement, keep)) ==> machine::execute(
            under(state, base),
            statement,
            keep,
        ) == lifted(machine::execute(state, statement, keep), base),
{
    lemma_push_under(base);
    lemma_unwind_is_local(state, base, MarkKind::Loop);
}

proof fn lemma_complete_is_local<'a>(
    state: State<'a>,
    statement: &'a Stmt,
    keep: bool,
    base: Seq<Task<'a>>,
)
    ensures
        goes_on(machine::complete(state, statement, keep)) ==> machine::complete(
            under(state, base),
            statement,
            keep,
        ) == lifted(machine::complete(state, statement, keep), base),
{
    lemma_push_under(base);
    lemma_unwind_is_local(state.pop(), base, MarkKind::Return);
    assert(under(state, base).pop() == under(state.pop(), base));
}

proof fn lemma_show_is_local<'a>(state: State<'a>, base: Seq<Task<'a>>)
    ensures
        machine::show(under(state, base)) == lifted(machine::show(state), base),
{
    lemma_push_under(base);
}

proof fn lemma_pass_is_local<'a>(
    state: State<'a>,
    kind: MarkKind,
    scope: usize,
    height: usize,
    base: Seq<Task<'a>>,
)
    ensures
        machine::pass(under(state, base), kind, scope, height) == lifted(
            machine::pass(state, kind, scope, height),
            base,
        ),
{
}

/// A step is local: with tasks to do, a step that neither ends the run nor
/// fails does the same whatever tasks lie under those of the state.
pub proof fn lemma_step_is_local<'a>(state: State<'a>, base: Seq<Task<'a>>)
    requires
        state.tasks.len() > 0,
        goes_on(step(state)),
    ensures
        step(under(state, base)) == lifted(step(state), base),
{
    lemma_push_under(base);
    let rest = State { tasks: state.tasks.drop_last(), ..state };
    let whole = under(state, base);
    assert(whole.tasks.drop_last() =~= base + rest.tasks);
    assert(whole.tasks.last() == state.tasks.last());
    assert((State { tasks: whole.tasks.drop_last(), ..whole }) == under(rest, base));
    match state.tasks.last() {
        Task::Evaluate(expr) => lemma_evaluate_is_local(rest, expr, base),
        Task::Apply(expr) => lemma_apply_is_local(rest, expr, base),
        Task::Join(expr) => lemma_join_is_local(rest, expr, base),
        Task::Arguments { call, next } => lemma_arguments_is_local(rest, call, next, base),
        Task::Call { count, line, column } => lemma_call_is_local(rest, count, line, column, base),
        Task::Execute { statement, keep } => lemma_execute_is_local(rest, statement, keep, base),
        Task::Complete { statement, keep } => lemma_complete_is_local(rest, statement, keep, base),
        Task::Run { .. } => {},
        Task::Show => lemma_show_is_local(rest, base),
        Task::Mark { kind, scope, height } => lemma_pass_is_local(rest, kind, scope, height, base),
    }
}

/// What the machine does when the host has replied: it takes the reply and
/// makes a step.
#[verifier::opaque]
pub open spec fn advance<'a>(state: State<'a>, reply: ReplyView) -> Step<'a> {
    step(answered(state, reply))
}

/// The state after the machine has advanced once for each of the host's
/// replies.
pub open spec fn after<'a>(state: State<'a>, replies: Seq<ReplyView>) -> State<'a>
    decreases replies.len(),
{
    if replies.len() == 0 {
        state
    } else {
        after(advance(state, replies.first()).state, replies.drop_first())
    }
}

/// Whether the machine has something to do before each of the steps, and
/// goes on after each: none of the steps ends the run or fails.
pub open spec fn proceeds<'a>(state: State<'a>, replies: Seq<ReplyView>) -> bool
    decreases replies.len(),
{
    replies.len() == 0 || {
        &&& state.tasks.len() > 0
        &&& goes_on(advance(state, replies.first()))
        &&& proceeds(advance(state, replies.first()).state, replies.drop_first())
    }
}

/// Advancing is local: see `lemma_step_is_local`.
pub proof fn lemma_advance_is_local<'a>(state: State<'a>, base: Seq<Task<'a>>, reply: ReplyView)
    requires
        state.tasks.len() > 0,
        goes_on(advance(state, reply)),
    ensures
        advance(under(state, base), reply) == lifted(advance(state, reply), base),
{
    reveal(advance);
    assert(answered(under(state, base), reply) == under(answered(state, reply), base));
    lemma_step_is_local(answered(state, reply), base);
}

/// Steps for some replies and then for others are steps for all of them.
pub proof fn lemma_after_all<'a>(state: State<'a>, first: Seq<ReplyView>, second: Seq<ReplyView>)
    ensures
        after(state, first + second) == after(after(state, first), second),
    decreases first.len(),
{
    if first.len() == 0 {
        assert(first + second =~= second);
    } else {
        assert((first + second).first() == first.first());
        assert((first + second).drop_first() =~= first.drop_first() + second);
        lemma_after_all(advance(state, first.first()).state, first.drop_first(), second);
    }
}

/// One step is the steps for one reply.
pub proof fn lemma_after_one<'a>(state: State<'a>, reply: ReplyView)
    ensures
        after(state, seq![reply]) == advance(state, reply).state,
{
    assert(seq![reply].drop_first() =~= Seq::<ReplyView>::empty());
    assert(after(advance(state, reply).state, Seq::<ReplyView>::empty()) == advance(
        state,
        reply,
    ).state);
}

/// A run is local: steps that neither end the run nor fail do the same
/// whatever tasks lie under those of the state.
pub proof fn lemma_run_is_local<'a>(state: State<'a>, base: Seq<Task<'a>>, replies: Seq<ReplyView>)
    requires
        proceeds(state, replies),
    ensures
        after(under(state, base), replies) == under(after(state, replies), base),
        proceeds(under(state, base), replies),
    decreases replies.len(),
{
    if replies.len() > 0 {
        lemma_advance_is_local(state, base, replies.first());
        lemma_run_is_local(advance(state, replies.first()).state, base, replies.drop_first());
    }
}

/// Whether the expression, evaluated alone from the state while the host
/// gives these replies, leaves the machine with nothing more to do, and in
/// `end` once the host has given a last reply: the value of the expression
/// is on top of the value stack of `end`.
pub open spec fn evaluates<'a>(
    state: State<'a>,
    expr: &'a Expr,
    replies: Seq<ReplyView>,
    last: ReplyView,
    end: State<'a>,
) -> bool {
    let alone = State { tasks: seq![Task::Evaluate(expr)], ..state };
    &&& proceeds(alone, replies)
    &&& after(alone, replies).tasks.len() == 0
    &&& end == answered(after(alone, replies), last)
}

/// An expression does in any program what it does alone: where it
/// evaluates alone, it evaluates the same on top of any tasks, which are
/// left as they were.
pub proof fn lemma_evaluation_is_local<'a>(
    state: State<'a>,
    expr: &'a Expr,
    replies: Seq<ReplyView>,
    last: ReplyView,
    end: State<'a>,
    base: Seq<Task<'a>>,
)
    requires
        evaluates(state, expr, replies, last, end),
    ensures
        proceeds(State { tasks: base.push(Task::Evaluate(expr)), ..state }, replies),
        answered(
            after(State { tasks: base.push(Task::Evaluate(expr)), ..state }, replies),
            last,
        ) == under(end, base),
        under(end, base).tasks == base,
{
    let alone = State { tasks: seq![Task::Evaluate(expr)], ..state };
    assert(under(alone, base).tasks =~= base.push(Task::Evaluate(expr)));
    lemma_run_is_local(alone, base, replies);
    assert(under(end, base).tasks =~= base);
}

/// Whether a left operand of this value decides a logical operator of this
/// kind.
pub open spec fn decides(kind: TokenKind, left: Value) -> bool {
    (kind == TokenKind::And && !left.is_truthy()) || (kind == TokenKind::Or && left.is_truthy())
}

/// The first step of a logical expression leaves its left operand to be
/// evaluated and the operator to be applied after it.
proof fn lemma_logical_begins<'a>(state: State<'a>, expr: &'a Expr)
    requires
        state.tasks.len() > 0,
        state.tasks.last() == Task::Evaluate(expr),
        state.awaiting == Awaiting::Nothing,
        expr is Logical,
    ensures
        expr matches Expr::Logical { left, .. } && advance(state, ReplyView::Nothing).state == (State {
            tasks: state.tasks.drop_last().push(Task::Apply(expr)).push(Task::Evaluate(&**left)),
            ..state
        }),
{
    reveal(advance);
    assert(answered(state, ReplyView::Nothing) == state);
}

/// The step that applies a logical operator keeps the left operand where it
/// decides, and leaves the right operand to be evaluated in its place where
/// it does not.
proof fn lemma_logical_ends<'a>(state: State<'a>, expr: &'a Expr, last: ReplyView)
    requires
        state.tasks.len() > 0,
        state.tasks.last() == Task::Apply(expr),
        expr matches Expr::Logical { operator, .. } && (operator.kind == TokenKind::And
            || operator.kind == TokenKind::Or),
    ensures
        expr matches Expr::Logical { operator, right, .. } && advance(state, last).state == ({
            let ready = answered(state, last);
            if decides(operator.kind, ready.top()) {
                State { tasks: state.tasks.drop_last(), ..ready }
            } else {
                State {
                    tasks: state.tasks.drop_last().push(Task::Evaluate(&**right)),
                    ..ready.pop()
                }
            }
        }),
{
    reveal(advance);
}

/// Short-circuiting, for a whole evaluation. Let the left operand of an
/// `and` or an `or`, evaluated alone, give a value and leave the machine in
/// the state `end`. Then the evaluation of the whole expression takes one
/// step more at each end, and where the left operand decides, the machine
/// is left in `end`, with that value on top: nothing of the right operand
/// was done. Where it does not decide, the value goes and the right operand
/// is evaluated in its place.
pub proof fn lemma_short_circuit<'a>(
    state: State<'a>,
    expr: &'a Expr,
    replies: Seq<ReplyView>,
    last: ReplyView,
    end: State<'a>,
)
    requires
        state.tasks.len() > 0,
        state.tasks.last() == Task::Evaluate(expr),
        state.awaiting == Awaiting::Nothing,
        expr matches Expr::Logical { left, operator, .. } && (operator.kind == TokenKind::And
            || operator.kind == TokenKind::Or) && evaluates(state, &**left, replies, last, end),
    ensures
        expr matches Expr::Logical { operator, right, .. } && after(
            state,
            seq![ReplyView::Nothing] + replies + seq![last],
        ) == (if decides(operator.kind, end.top()) {
            State { tasks: state.tasks.drop_last(), ..end }
        } else {
            State {
                tasks: state.tasks.drop_last().push(Task::Evaluate(&**right)),
                ..end.pop()
            }
        }),
{
    let base = state.tasks.drop_last();
    if let Expr::Logical { left, operator, right } = expr {
        let above = base.push(Task::Apply(expr));
        let started = State { tasks: above.push(Task::Evaluate(&**left)), ..state };
        lemma_logical_begins(state, expr);
        lemma_after_one(state, ReplyView::Nothing);
        lemma_evaluation_is_local(state, &**left, replies, last, end, above);
        let reached = after(started, replies);
        assert(answered(reached, last) == under(end, above));
        assert(reached.tasks == above);
        assert(above.drop_last() =~= base);
        lemma_logical_ends(reached, expr, last);
        lemma_after_one(reached, last);
        lemma_after_all(state, seq![ReplyView::Nothing] + replies, seq![last]);
        lemma_after_all(state, seq![ReplyView::Nothing], replies);
        assert(under(end, above).top() == end.top());
        assert(under(end, above).pop() == under(end.pop(), above));
    }
}

/// Whether the tasks lie on the mark of a call that goes back to the scope
/// `caller`.
pub open spec fn on_call(tasks: Seq<Task>, caller: usize) -> bool {
    tasks.len() > 0 && (tasks[0] matches Task::Mark { kind, scope, .. } && kind == MarkKind::Return
        && scope == caller)
}

/// Whether the call is still going on after a step, or has just come to its
/// end in the scope of the caller.
pub open spec fn called_or_back(after: State, caller: usize) -> bool {
    on_call(after.tasks, caller) || (after.tasks.len() == 0 && after.scope == caller)
}

/// The mark at the bottom names a scope that is no younger than the limit.
proof fn lemma_bottom_mark_is_below(tasks: Seq<Task>, limit: usize, globals: usize, caller: usize)
    requires
        marks_below(tasks, limit, globals),
        on_call(tasks, caller),
    ensures
        globals <= caller <= limit,
    decreases tasks.len(),
{
    if tasks.len() > 1 {
        assert(tasks.drop_last()[0] == tasks[0]);
        match tasks.last() {
            Task::Mark { scope, .. } => lemma_bottom_mark_is_below(
                tasks.drop_last(),
                scope,
                globals,
                caller,
            ),
            _ => lemma_bottom_mark_is_below(tasks.drop_last(), limit, globals, caller),
        }
    }
}

/// Unwinding from tasks that lie on the mark of a call goes on with the
/// call or ends it in the scope of the caller.
proof fn lemma_unwind_keeps_call<'a>(state: State<'a>, kind: MarkKind, caller: usize)
    requires
        orderly(state),
        on_call(state.tasks, caller),
    ensures
        state.unwind(kind) matches Some(after) ==> called_or_back(after, caller),
{
    lemma_marks_below_nearest(state.tasks, kind, state.scope, state.globals);
    lemma_bottom_mark_is_below(state.tasks, state.scope, state.globals, caller);
    if let Some(place) = nearest(state.tasks, kind) {
        if let Task::Mark { scope, .. } = state.tasks[place] {
            lemma_release_bounds(state.scopes, scope);
            if place > 0 {
                assert(state.tasks.take(place)[0] == state.tasks[0]);
            }
        }
    }
}

/// A task pushed on tasks leaves the one at the bottom.
proof fn lemma_pushed_keeps_bottom<'a>(some: Seq<Task<'a>>)
    ensures
        forall|tasks: Seq<Task<'a>>, task: Task<'a>|
            tasks.len() > 0 ==> (#[trigger] tasks.push(task))[0] == tasks[0],
{
}

proof fn lemma_evaluate_keeps_call<'a>(state: State<'a>, expr: &'a Expr, caller: usize)
    requires
        orderly(state),
        on_call(state.tasks, caller),
        goes_on(machine::evaluate(state, expr)),
    ensures
        called_or_back(machine::evaluate(state, expr).state, caller),
{
    lemma_pushed_keeps_bottom(state.tasks);
}

proof fn lemma_operate_keeps_call<'a>(
    state: State<'a>,
    expr: &'a Expr,
    kind: TokenKind,
    line: usize,
    column: usize,
    left: Value,
    right: Value,
    caller: usize,
)
    requires
        orderly(state),
        on_call(state.tasks, caller),
        goes_on(machine::operate(state, expr, kind, line, column, left, right)),
    ensures
        called_or_back(machine::operate(state, expr, kind, line, column, left, right).state, caller),
{
    lemma_pushed_keeps_bottom(state.tasks);
}

proof fn lemma_apply_keeps_call<'a>(state: State<'a>, expr: &'a Expr, caller: usize)
    requires
        orderly(state),
        on_call(state.tasks, caller),
        goes_on(machine::apply(state, expr)),
    ensures
        called_or_back(machine::apply(state, expr).state, caller),
{
    lemma_pushed_keeps_bottom(state.tasks);
    if let Expr::Binary { operator, .. } = expr {
        assert(state.pop().pop().tasks == state.tasks);
        lemma_operate_keeps_call(
            state.pop().pop(),
            expr,
            operator.kind,
            operator.line,
            operator.column,
            state.pop().top(),
            state.top(),
            caller,
        );
    }
}

proof fn lemma_join_keeps_call<'a>(state: State<'a>, expr: &'a Expr, caller: usize)
    requires
        orderly(state),
        on_call(state.tasks, caller),
        goes_on(machine::join(state, expr)),
    ensures
        called_or_back(machine::join(state, expr).state, caller),
{
    lemma_pushed_keeps_bottom(state.tasks);
}

proof fn lemma_invoke_keeps_call<'a>(
    state: State<'a>,
    declaration: &'a Stmt,
    closure: usize,
    count: usize,
    caller: usize,
)
    requires
        orderly(state),
        on_call(state.tasks, caller),
        goes_on(machine::invoke(state, declaration, closure, count)),
    ensures
        called_or_back(machine::invoke(state, declaration, closure, count).state, caller),
{
    lemma_pushed_keeps_bottom(state.tasks);
}

proof fn lemma_call_keeps_call<'a>(
    state: State<'a>,
    count: usize,
    line: usize,
    column: usize,
    caller: usize,
)
    requires
        orderly(state),
        on_call(state.tasks, caller),
        goes_on(machine::call(state, count, line, column)),
    ensures
        called_or_back(machine::call(state, count, line, column).state, caller),
{
    lemma_pushed_keeps_bottom(state.tasks);
    if count < state.values.len() {
        if let Value::Callable(callable) = state.values[state.values.len() - 1 - count] {
            if let crate::callable::Code::Function { declaration, closure } = callable.code {
                if declaration < state.declarations.len() {
                    lemma_invoke_keeps_call(
                        state,
                        state.declarations[declaration as int],
                        closure,
                        count,
                        caller,
                    );
                }
            }
        }
    }
}

proof fn lemma_arguments_keeps_call<'a>(
    state: State<'a>,
    call: &'a Expr,
    next: usize,
    caller: usize,
)
    requires
        orderly(state),
        on_call(state.tasks, caller),
        goes_on(machine::arguments(state, call, next)),
    ensures
        called_or_back(machine::arguments(state, call, next).state, caller),
{
    lemma_pushed_keeps_bottom(state.tasks);
    if let Expr::Call { paren, .. } = call {
        if goes_on(machine::call(state, next, paren.line, paren.column)) {
            lemma_call_keeps_call(state, next, paren.line, paren.column, caller);
        }
    }
}

proof fn lemma_execute_keeps_call<'a>(
    state: State<'a>,
    statement: &'a Stmt,
    keep: bool,
    caller: usize,
)
    requires
        orderly(state),
        on_call(state.tasks, caller),
        goes_on(machine::execute(state, statement, keep)),
    ensures
        called_or_back(machine::execute(state, statement, keep).state, caller),
{
    lemma_pushed_keeps_bottom(state.tasks);
    lemma_unwind_keeps_call(state, MarkKind::Loop, caller);
}

proof fn lemma_complete_keeps_call<'a>(
    state: State<'a>,
    statement: &'a Stmt,
    keep: bool,
    caller: usize,
)
    requires
        orderly(state),
        on_call(state.tasks, caller),
        goes_on(machine::complete(state, statement, keep)),
    ensures
        called_or_back(machine::complete(state, statement, keep).state, caller),
{
    lemma_pushed_keeps_bottom(state.tasks);
    lemma_unwind_keeps_call(state.pop(), MarkKind::Return, caller);
}

proof fn lemma_show_keeps_call<'a>(state: State<'a>, caller: usize)
    requires
        orderly(state),
        on_call(state.tasks, caller),
        goes_on(machine::show(state)),
    ensures
        called_or_back(machine::show(state).state, caller),
{
    lemma_pushed_keeps_bottom(state.tasks);
}

proof fn lemma_pass_keeps_call<'a>(
    state: State<'a>,
    kind: MarkKind,
    scope: usize,
    height: usize,
    caller: usize,
)
    requires
        on_call(state.tasks, caller),
    ensures
        called_or_back(machine::pass(state, kind, scope, height).state, caller),
{
}

/// A step from tasks that lie on the mark of a call goes on with the call
/// or ends it in the scope of the caller.
pub proof fn lemma_step_keeps_call<'a>(state: State<'a>, caller: usize)
    requires
        orderly(state),
        on_call(state.tasks, caller),
        goes_on(step(state)),
    ensures
        called_or_back(step(state).state, caller),
{
    let rest = State { tasks: state.tasks.drop_last(), ..state };
    lemma_bottom_mark_is_below(state.tasks, state.scope, state.globals, caller);
    if state.tasks.len() == 1 {
        lemma_release_bounds(state.scopes, caller);
    } else {
        assert(rest.tasks[0] == state.tasks[0]);
        lemma_pushed_keeps_bottom(state.tasks);
        match state.tasks.last() {
            Task::Mark { kind, scope, height } => {
                lemma_pass_keeps_call(rest, kind, scope, height, caller);
            },
            Task::Evaluate(expr) => lemma_evaluate_keeps_call(rest, expr, caller),
            Task::Apply(expr) => lemma_apply_keeps_call(rest, expr, caller),
            Task::Join(expr) => lemma_join_keeps_call(rest, expr, caller),
            Task::Arguments { call, next } => lemma_arguments_keeps_call(rest, call, next, caller),
            Task::Call { count, line, column } => {
                lemma_call_keeps_call(rest, count, line, column, caller);
            },
            Task::Execute { statement, keep } => {
                lemma_execute_keeps_call(rest, statement, keep, caller);
            },
            Task::Complete { statement, keep } => {
                lemma_complete_keeps_call(rest, statement, keep, caller);
            },
            Task::Run { .. } => {},
            Task::Show => lemma_show_keeps_call(rest, caller),
        }
    }
}

/// A call ends in the scope of its caller. Let the tasks of the machine lie
/// on the mark of a call, and let the machine be in order. If it comes to
/// the end of these tasks, by a `return` or by the end of the body, without
/// a failure, then the scope in force is that of the caller.
pub proof fn lemma_call_comes_back<'a>(state: State<'a>, caller: usize, replies: Seq<ReplyView>)
    requires
        orderly(state),
        on_call(state.tasks, caller),
        proceeds(state, replies),
        after(state, replies).tasks.len() == 0,
    ensures
        after(state, replies).scope == caller,
    decreases replies.len(),
{
    if replies.len() > 0 {
        let ready = answered(state, replies.first());
        lemma_answered_keeps_order(state, replies.first());
        assert(advance(state, replies.first()) == step(ready)) by {
            reveal(advance);
        }
        lemma_step_keeps_call(ready, caller);
        lemma_step_keeps_order(ready);
        let next = step(ready).state;
        assert(after(state, replies) == after(next, replies.drop_first()));
        if next.tasks.len() == 0 {
            if replies.drop_first().len() > 0 {
                assert(!proceeds(next, replies.drop_first()));
            } else {
                assert(after(next, replies.drop_first()) == next);
            }
        } else {
            lemma_call_comes_back(next, caller, replies.drop_first());
        }
    }
}

/// The same in any program: where a call that is run alone comes to its
/// end, it comes to its end under any tasks, which are left as they were,
/// and in the scope of its caller.
pub proof fn lemma_call_comes_back_anywhere<'a>(
    state: State<'a>,
    caller: usize,
    replies: Seq<ReplyView>,
    base: Seq<Task<'a>>,
)
    requires
        orderly(state),
        on_call(state.tasks, caller),
        proceeds(state, replies),
        after(state, replies).tasks.len() == 0,
    ensures
        after(under(state, base), replies).tasks == base,
        after(under(state, base), replies).scope == caller,
{
    lemma_call_comes_back(state, caller, replies);
    lemma_run_is_local(state, base, replies);
    assert(under(after(state, replies), base).tasks =~= base);
}

/// Setting the parameters of a call leaves the frame below its parent, and
/// makes no frame.
proof fn lemma_entered_keeps_parent(
    scopes: Seq<Scope>,
    frame: usize,
    params: Seq<String>,
    values: Seq<Value>,
    base: int,
    next: int,
)
    requires
        frame < scopes.len(),
    ensures
        machine::entered(scopes, frame, params, values, base, next).len() == scopes.len(),
        machine::entered(scopes, frame, params, values, base, next)[frame as int].parent
            == scopes[frame as int].parent,
    decreases params.len() - next,
{
    if 0 <= next < params.len() && 0 <= base + next < values.len() {
        lemma_entered_keeps_parent(
            defined(scopes, frame, params[next]@, values[base + next]),
            frame,
            params,
            values,
            base,
            next + 1,
        );
    }
}

/// A call of a function of the program enters a new frame below the scope
/// in which the function was declared, not below that of the caller, and
/// leaves the body of the function to be run on the mark that goes back to
/// the scope of the caller.
pub proof fn lemma_call_enters_the_closure<'a>(
    state: State<'a>,
    count: usize,
    declaration: usize,
    closure: usize,
)
    requires
        state.tasks.len() > 0,
        state.tasks.last() matches Task::Call { count: given, .. } && given == count,
        count < state.values.len(),
        state.values[state.values.len() - 1 - count] == Value::Callable(
            Callable { parameters: count, code: Code::Function { declaration, closure } },
        ),
        declaration < state.declarations.len(),
        closure < state.scopes.len() < usize::MAX,
        state.declarations[declaration as int] matches Stmt::Function { params, .. }
            && params@.len() == count,
    ensures
        ({
            let entered = step(state);
            let frame = state.scopes.len() as int;
            &&& entered.action is None
            &&& entered.state.scope == frame
            &&& entered.state.scopes.len() == frame + 1
            &&& entered.state.scopes[frame].parent == Some(closure)
            &&& state.declarations[declaration as int] matches Stmt::Function { body, .. }
                && entered.state.tasks == state.tasks.drop_last().push(
                Task::Mark {
                    kind: MarkKind::Return,
                    scope: state.scope,
                    height: (state.values.len() - 1 - count) as usize,
                },
            ).push(Task::Run { statements: body, next: 0, keep: true })
        }),
{
    if let Stmt::Function { params, .. } = state.declarations[declaration as int] {
        lemma_entered_keeps_parent(
            extended(state.scopes, Some(closure)),
            state.scopes.len() as usize,
            params@,
            state.values,
            state.values.len() - count,
            0,
        );
    }
}

} // verus!
