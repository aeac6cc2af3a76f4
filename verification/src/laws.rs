//! Laws of the language, proved of the specifications that the contracts of
//! the scanner, the parser and the interpreter are stated over.
use vstd::prelude::*;
use crate::bytes::{DOT, NEWLINE};
use crate::callable::Callable;
use crate::environment::{bound, defined, extended, holder, lookup, released, Scope};
use crate::error::{DiagnosticView, ErrorType};
use crate::expressions::{Expr, Value};
use crate::machine::{run, step, ActionView, State, Step, Task};
use crate::scanner::{
    column_at, error_at, errors_from, lemma_place_run, lexeme_at, lexeme_end, line_at, number_end,
    punctuation, token_at, tokens_from, Lexeme,
};
use crate::statements::Stmt;
use crate::text::{decimal, is_digit, lemma_run_end, run_end, text_of, ByteClass};
use crate::tokens::{TokenKind, TokenView};

verus! {

/// Exactly `nil` and `false` are falsey.
pub proof fn lemma_truthiness(value: Value)
    ensures
        !value.is_truthy() <==> (value == Value::Nil || value == Value::Boolean(false)),
{
}

/// `and` with a falsey left operand gives that operand and leaves the right
/// operand alone: the step that decides schedules nothing and asks nothing.
pub proof fn lemma_and_short_circuits<'a>(state: State<'a>, expr: &'a Expr)
    requires
        state.tasks.len() > 0,
        state.tasks.last() == Task::Apply(expr),
        expr matches Expr::Logical { operator, .. } && operator.kind == TokenKind::And,
        !state.top().is_truthy(),
    ensures
        step(state) == (Step {
            state: State { tasks: state.tasks.drop_last(), ..state },
            action: None,
        }),
{
}

/// `or` with a truthy left operand gives that operand and leaves the right
/// operand alone: the step that decides schedules nothing and asks nothing.
pub proof fn lemma_or_short_circuits<'a>(state: State<'a>, expr: &'a Expr)
    requires
        state.tasks.len() > 0,
        state.tasks.last() == Task::Apply(expr),
        expr matches Expr::Logical { operator, .. } && operator.kind == TokenKind::Or,
        state.top().is_truthy(),
    ensures
        step(state) == (Step {
            state: State { tasks: state.tasks.drop_last(), ..state },
            action: None,
        }),
{
}

/// A logical operator whose left operand is a literal that decides it is
/// evaluated in three steps that ask nothing of the host, to that literal.
#[verifier::rlimit(40)]
proof fn lemma_literal_decides<'a>(state: State<'a>, expr: &'a Expr)
    requires
        state.tasks.len() > 0,
        state.tasks.last() == Task::Evaluate(expr),
        expr matches Expr::Logical { left, operator, .. } && (**left matches Expr::Literal {
            value,
        } && ((operator.kind == TokenKind::And && !value@.is_truthy()) || (operator.kind
            == TokenKind::Or && value@.is_truthy()))),
    ensures
        expr matches Expr::Logical { left, .. } && (**left matches Expr::Literal { value } && run(
            state,
            3,
        ) == (Step {
            state: State {
                tasks: state.tasks.drop_last(),
                values: state.values.push(value@),
                ..state
            },
            action: Some(ActionView::Running),
        })),
{
    let base = state.tasks.drop_last();
    let left = match expr {
        Expr::Logical { left, .. } => &**left,
        _ => expr,
    };
    let value = match left {
        Expr::Literal { value } => value@,
        _ => Value::Nil,
    };
    let first = State { tasks: base.push(Task::Apply(expr)).push(Task::Evaluate(left)), ..state };
    assert(step(state) == first.go());
    assert(first.tasks.drop_last() == base.push(Task::Apply(expr)));
    let second = State {
        tasks: base.push(Task::Apply(expr)),
        values: state.values.push(value),
        ..state
    };
    assert(step(first) == second.go());
    assert(second.tasks.drop_last() == base);
    let third = State { tasks: base, values: state.values.push(value), ..state };
    assert(step(second) == third.go());
    assert(run(third, 0) == Step { state: third, action: Some(ActionView::Running) });
    assert(run(second, 1) == run(third, 0));
    assert(run(first, 2) == run(second, 1));
    assert(run(state, 3) == run(first, 2));
}

/// `false and f()`: an `and` whose left operand is a falsey literal is
/// evaluated in three steps that ask nothing of the host, to that literal;
/// the right operand is never among the tasks.
pub proof fn lemma_falsey_and_skips_the_right<'a>(state: State<'a>, expr: &'a Expr)
    requires
        state.tasks.len() > 0,
        state.tasks.last() == Task::Evaluate(expr),
        expr matches Expr::Logical { left, operator, .. } && operator.kind == TokenKind::And && (
        **left matches Expr::Literal { value } && !value@.is_truthy()),
    ensures
        expr matches Expr::Logical { left, .. } && (**left matches Expr::Literal { value } && run(
            state,
            3,
        ) == (Step {
            state: State {
                tasks: state.tasks.drop_last(),
                values: state.values.push(value@),
                ..state
            },
            action: Some(ActionView::Running),
        })),
{
    lemma_literal_decides(state, expr);
}

/// `true or f()`: an `or` whose left operand is a truthy literal is
/// evaluated in three steps that ask nothing of the host, to that literal;
/// the right operand is never among the tasks.
pub proof fn lemma_truthy_or_skips_the_right<'a>(state: State<'a>, expr: &'a Expr)
    requires
        state.tasks.len() > 0,
        state.tasks.last() == Task::Evaluate(expr),
        expr matches Expr::Logical { left, operator, .. } && operator.kind == TokenKind::Or && (
        **left matches Expr::Literal { value } && value@.is_truthy()),
    ensures
        expr matches Expr::Logical { left, .. } && (**left matches Expr::Literal { value } && run(
            state,
            3,
        ) == (Step {
            state: State {
                tasks: state.tasks.drop_last(),
                values: state.values.push(value@),
                ..state
            },
            action: Some(ActionView::Running),
        })),
{
    lemma_literal_decides(state, expr);
}

/// Where a logical operator needs its right operand, the left one goes and
/// the right one is evaluated in its place.
pub proof fn lemma_logical_goes_on<'a>(state: State<'a>, expr: &'a Expr)
    requires
        state.tasks.len() > 0,
        state.tasks.last() == Task::Apply(expr),
        expr matches Expr::Logical { operator, .. } && (operator.kind == TokenKind::And
            || operator.kind == TokenKind::Or) && state.top().is_truthy() == (operator.kind
            == TokenKind::And),
    ensures
        expr matches Expr::Logical { right, .. } && step(state) == (Step {
            state: State {
                tasks: state.tasks.drop_last().push(Task::Evaluate(&**right)),
                values: state.pop().values,
                ..state
            },
            action: None,
        }),
{
}

/// A call with a number of arguments other than the number of parameters
/// ends the run with a runtime error at the call's closing parenthesis,
/// whose message holds both numbers. Nothing is left to do: what was called
/// is not run.
pub proof fn lemma_arity_is_enforced<'a>(
    state: State<'a>,
    call: &'a Expr,
    callee: Callable,
    count: usize,
)
    requires
        state.tasks.len() > 0,
        state.tasks.last() == (Task::Arguments { call, next: count }),
        call matches Expr::Call { arguments, .. } && arguments@.len() == count,
        count < state.values.len(),
        state.values[state.values.len() - 1 - count] == Value::Callable(callee),
        callee.parameters != count,
    ensures
        call matches Expr::Call { paren, .. } && step(state).action == Some(
            ActionView::Failed {
                diagnostic: DiagnosticView {
                    kind: ErrorType::RuntimeError,
                    line: paren.line as nat,
                    column: paren.column as nat,
                    message: "Expected "@ + decimal(callee.parameters as nat)
                        + " arguments but got "@ + decimal(count as nat) + "."@,
                },
            },
        ),
        step(state).state.tasks.len() == 0,
{
}

/// A failure ends the run: the step that reports an error leaves nothing to
/// do and no value, so that a run reports one error at most.
#[verifier::rlimit(30)]
pub proof fn lemma_failure_ends_the_run<'a>(state: State<'a>)
    requires
        step(state).action matches Some(ActionView::Failed { .. }),
    ensures
        step(state).state.tasks.len() == 0,
        step(state).state.values.len() == 0,
        step(state).state.scope == state.globals,
{
}

/// The place in the source that a task answers for: that of the name of a
/// variable, of an operator, of the closing parenthesis of a call, or of a
/// `break`; for a call made by the host, the place that the host gave.
pub open spec fn answers_for(task: Task, line: nat, column: nat) -> bool {
    match task {
        Task::Evaluate(Expr::Variable { name }) => line == name.line && column == name.column,
        Task::Apply(Expr::Assign { name, .. }) => line == name.line && column == name.column,
        Task::Apply(Expr::Unary { operator, .. }) => line == operator.line && column
            == operator.column,
        Task::Apply(Expr::Binary { operator, .. }) => line == operator.line && column
            == operator.column,
        Task::Apply(Expr::Logical { operator, .. }) => line == operator.line && column
            == operator.column,
        Task::Arguments { call: Expr::Call { paren, .. }, .. } => line == paren.line && column
            == paren.column,
        Task::Call { line: at, column: col, .. } => line == at && column == col,
        Task::Execute { statement: Stmt::Break { line: at, column: col }, .. } => line == *at
            && column == *col,
        _ => false,
    }
}

/// Every runtime error is reported at the place of a token of the
/// expression or statement that was being run.
#[verifier::rlimit(30)]
pub proof fn lemma_runtime_errors_are_placed<'a>(state: State<'a>)
    requires
        step(state).action matches Some(ActionView::Failed { .. }),
    ensures
        state.tasks.len() > 0,
        step(state).action matches Some(ActionView::Failed { diagnostic }) && diagnostic.kind
            == ErrorType::RuntimeError && answers_for(
            state.tasks.last(),
            diagnostic.line,
            diagnostic.column,
        ),
{
}

/// The frame that holds a name for a scope is the scope or one made
/// before it.
pub proof fn lemma_holder_is_older(scopes: Seq<Scope>, scope: usize, name: Seq<char>)
    ensures
        holder(scopes, scope, name) matches Some(frame) ==> frame <= scope && frame < scopes.len()
            && scopes[frame as int].variables.contains_key(name),
    decreases scope,
{
    if scope < scopes.len() && !scopes[scope as int].variables.contains_key(name) {
        if let Some(parent) = scopes[scope as int].parent {
            if parent < scope {
                lemma_holder_is_older(scopes, parent, name);
            }
        }
    }
}

/// What a scope sees does not depend on the frames made after it.
pub proof fn lemma_later_frames_are_unseen(
    first: Seq<Scope>,
    second: Seq<Scope>,
    scope: usize,
    name: Seq<char>,
)
    requires
        scope < first.len(),
        scope < second.len(),
        forall|i: int| 0 <= i <= scope ==> first[i] == second[i],
    ensures
        holder(first, scope, name) == holder(second, scope, name),
        lookup(first, scope, name) == lookup(second, scope, name),
    decreases scope,
{
    if !first[scope as int].variables.contains_key(name) {
        if let Some(parent) = first[scope as int].parent {
            if parent < scope {
                lemma_later_frames_are_unseen(first, second, parent, name);
            }
        }
    }
    lemma_holder_is_older(first, scope, name);
}

/// A name set in the frame that holds it for a scope is still held there.
pub proof fn lemma_holder_stays(scopes: Seq<Scope>, scope: usize, name: Seq<char>, value: Value)
    requires
        holder(scopes, scope, name) is Some,
    ensures
        holder(defined(scopes, holder(scopes, scope, name).unwrap(), name, value), scope, name)
            == holder(scopes, scope, name),
        lookup(defined(scopes, holder(scopes, scope, name).unwrap(), name, value), scope, name)
            == Some(value),
    decreases scope,
{
    let frame = holder(scopes, scope, name).unwrap();
    lemma_holder_is_older(scopes, scope, name);
    if !scopes[scope as int].variables.contains_key(name) {
        let parent = scopes[scope as int].parent.unwrap();
        lemma_holder_stays(scopes, parent, name, value);
    }
}

/// Whether `frame` is the scope or one of the frames around it.
pub open spec fn encloses(scopes: Seq<Scope>, frame: usize, scope: usize) -> bool
    decreases scope,
{
    scope < scopes.len() && (frame == scope || match scopes[scope as int].parent {
        Some(parent) => parent < scope && encloses(scopes, frame, parent),
        None => false,
    })
}

/// Closures keep their cells: what a scope sees changes only by what is
/// set in the scope itself or in a frame around it. Nothing that another
/// frame declares or is assigned, whenever it was made, is seen from the
/// scope.
pub proof fn lemma_other_frames_are_unseen(
    scopes: Seq<Scope>,
    frame: usize,
    name: Seq<char>,
    value: Value,
    scope: usize,
    other: Seq<char>,
)
    requires
        frame < scopes.len(),
        !encloses(scopes, frame, scope),
    ensures
        lookup(defined(scopes, frame, name, value), scope, other) == lookup(scopes, scope, other),
        holder(defined(scopes, frame, name, value), scope, other) == holder(scopes, scope, other),
    decreases scope,
{
    let after = defined(scopes, frame, name, value);
    if scope < scopes.len() {
        assert(after[scope as int] == scopes[scope as int]);
        if !scopes[scope as int].variables.contains_key(other) {
            if let Some(parent) = scopes[scope as int].parent {
                if parent < scope {
                    lemma_other_frames_are_unseen(scopes, frame, name, value, parent, other);
                }
            }
        }
        lemma_holder_is_older(scopes, scope, other);
        lemma_holder_encloses(scopes, scope, other);
    }
}

/// The frame that holds a name for a scope is the scope or a frame around
/// it.
pub proof fn lemma_holder_encloses(scopes: Seq<Scope>, scope: usize, name: Seq<char>)
    ensures
        holder(scopes, scope, name) matches Some(frame) ==> encloses(scopes, frame, scope),
    decreases scope,
{
    if scope < scopes.len() && !scopes[scope as int].variables.contains_key(name) {
        if let Some(parent) = scopes[scope as int].parent {
            if parent < scope {
                lemma_holder_encloses(scopes, parent, name);
            }
        }
    }
}

/// Releasing frames drops last frames only: it keeps the frames up to
/// `above`, and every frame in which a function was declared, each as it
/// was, and with it the frames around it, which are older.
pub proof fn lemma_release_keeps(scopes: Seq<Scope>, above: usize)
    ensures
        released(scopes, above).len() <= scopes.len(),
        above < scopes.len() ==> above < released(scopes, above).len(),
        forall|i: int|
            0 <= i < released(scopes, above).len() ==> (#[trigger] released(scopes, above)[i])
                == scopes[i],
        forall|i: int|
            0 <= i < scopes.len() && (#[trigger] scopes[i]).captured ==> i < released(
                scopes,
                above,
            ).len(),
    decreases scopes.len(),
{
    if scopes.len() > above + 1 && !scopes.last().captured {
        let fewer = scopes.drop_last();
        lemma_release_keeps(fewer, above);
        assert forall|i: int| 0 <= i < scopes.len() && (#[trigger] scopes[i]).captured implies i
            < released(scopes, above).len() by {
            assert(i < fewer.len());
            assert(fewer[i].captured);
        }
    }
}

/// Closures keep their cells: what a scope that is left sees is what it saw
/// before frames were released.
pub proof fn lemma_release_is_unseen(
    scopes: Seq<Scope>,
    above: usize,
    scope: usize,
    name: Seq<char>,
)
    requires
        scope < released(scopes, above).len(),
    ensures
        lookup(released(scopes, above), scope, name) == lookup(scopes, scope, name),
{
    lemma_release_keeps(scopes, above);
    lemma_later_frames_are_unseen(released(scopes, above), scopes, scope, name);
}

/// Shadowing: a variable declared in an inner block is seen from the block
/// and changes nothing of what the scope around the block sees, the
/// variable of the same name included.
pub proof fn lemma_declaration_shadows(
    scopes: Seq<Scope>,
    outer: usize,
    name: Seq<char>,
    value: Value,
    other: Seq<char>,
)
    requires
        outer < scopes.len() < usize::MAX,
    ensures
        ({
            let inner = scopes.len() as usize;
            let after = defined(extended(scopes, Some(outer)), inner, name, value);
            &&& lookup(after, inner, name) == Some(value)
            &&& lookup(after, outer, other) == lookup(scopes, outer, other)
        }),
{
    let inner = scopes.len() as usize;
    let after = defined(extended(scopes, Some(outer)), inner, name, value);
    assert(after[inner as int].variables.contains_key(name));
    lemma_later_frames_are_unseen(after, scopes, outer, other);
}

/// Assignment reaches out: an assignment in an inner block to a variable
/// that the scope around the block sees changes that variable, for the
/// block and for the scope around it.
pub proof fn lemma_assignment_reaches_out(
    scopes: Seq<Scope>,
    outer: usize,
    name: Seq<char>,
    value: Value,
)
    requires
        outer < scopes.len() < usize::MAX,
        lookup(scopes, outer, name) is Some,
    ensures
        ({
            let inner = scopes.len() as usize;
            let after = bound(extended(scopes, Some(outer)), inner, name, value);
            &&& lookup(after, inner, name) == Some(value)
            &&& lookup(after, outer, name) == Some(value)
        }),
{
    let inner = scopes.len() as usize;
    let made = extended(scopes, Some(outer));
    lemma_later_frames_are_unseen(made, scopes, outer, name);
    assert(!made[inner as int].variables.contains_key(name));
    assert(holder(made, inner, name) == holder(made, outer, name));
    lemma_holder_stays(made, outer, name, value);
    lemma_holder_stays(made, inner, name, value);
}

/// A lexeme is not empty and ends within the source.
pub proof fn lemma_lexeme_ends_inside(src: Seq<u8>, pos: nat)
    requires
        pos < src.len(),
    ensures
        pos < lexeme_end(src, pos) <= src.len(),
{
    let first = src[pos as int];
    lemma_run_end(src, pos + 1, ByteClass::Digit);
    lemma_run_end(src, pos + 1, ByteClass::Word);
    lemma_run_end(src, pos + 1, ByteClass::Continuation);
    lemma_run_end(src, pos + 1, ByteClass::Except(first));
    lemma_run_end(src, pos + 2, ByteClass::Except(NEWLINE));
    let whole = run_end(src, pos + 1, ByteClass::Digit);
    lemma_run_end(src, whole + 2, ByteClass::Digit);
}

/// The token or the error that a lexeme gives is reported at the line and
/// column of the last byte of the lexeme.
pub proof fn lemma_lexeme_is_placed(src: Seq<u8>, pos: nat)
    requires
        pos < src.len(),
    ensures
        ({
            let end = lexeme_end(src, pos);
            &&& pos < end <= src.len()
            &&& token_at(src, pos).len() <= 1
            &&& error_at(src, pos).len() <= 1
            &&& token_at(src, pos).len() == 1 ==> token_at(src, pos)[0].line == line_at(src, end)
                && token_at(src, pos)[0].column == column_at(src, end)
            &&& error_at(src, pos).len() == 1 ==> error_at(src, pos)[0].line == line_at(src, end)
                && error_at(src, pos)[0].column == column_at(src, end)
        }),
{
    lemma_lexeme_ends_inside(src, pos);
}

/// Whether the place is that of the byte `byte`, counted from 1, of the
/// lexeme that starts at `pos`, at or after `from`.
pub open spec fn on_byte(
    src: Seq<u8>,
    from: nat,
    pos: nat,
    byte: nat,
    line: nat,
    column: nat,
) -> bool {
    &&& from <= pos < byte <= lexeme_end(src, pos) <= src.len()
    &&& line == line_at(src, byte)
    &&& column == column_at(src, byte)
}

/// Error location in the scanner: every token of a source is reported at
/// the line and column of one of its own bytes.
pub proof fn lemma_tokens_are_placed(src: Seq<u8>, from: nat, i: int)
    requires
        0 <= i < tokens_from(src, from).len(),
    ensures
        exists|pos: nat, byte: nat| #[trigger]
            on_byte(
                src,
                from,
                pos,
                byte,
                tokens_from(src, from)[i].line,
                tokens_from(src, from)[i].column,
            ),
    decreases src.len() - from,
{
    if from < src.len() {
        lemma_lexeme_is_placed(src, from);
        let end = lexeme_end(src, from);
        let token = tokens_from(src, from)[i];
        if i < token_at(src, from).len() {
            assert(on_byte(src, from, from, end, token.line, token.column));
        } else {
            let j = i - token_at(src, from).len();
            assert(token == tokens_from(src, end)[j]);
            lemma_tokens_are_placed(src, end, j);
            let (pos, byte) = choose|pos: nat, byte: nat| #[trigger]
                on_byte(src, end, pos, byte, token.line, token.column);
            assert(on_byte(src, from, pos, byte, token.line, token.column));
        }
    }
}

/// Error location in the scanner: every lexical error of a source is
/// reported at the line and column of a byte of the lexeme that is wrong.
pub proof fn lemma_lexical_errors_are_placed(src: Seq<u8>, from: nat, i: int)
    requires
        0 <= i < errors_from(src, from).len(),
    ensures
        exists|pos: nat, byte: nat| #[trigger]
            on_byte(
                src,
                from,
                pos,
                byte,
                errors_from(src, from)[i].line,
                errors_from(src, from)[i].column,
            ),
    decreases src.len() - from,
{
    if from < src.len() {
        lemma_lexeme_is_placed(src, from);
        let end = lexeme_end(src, from);
        let error = errors_from(src, from)[i];
        if i < error_at(src, from).len() {
            assert(on_byte(src, from, from, end, error.line, error.column));
        } else {
            let j = i - error_at(src, from).len();
            assert(error == errors_from(src, end)[j]);
            lemma_lexical_errors_are_placed(src, end, j);
            let (pos, byte) = choose|pos: nat, byte: nat| #[trigger]
                on_byte(src, end, pos, byte, error.line, error.column);
            assert(on_byte(src, from, pos, byte, error.line, error.column));
        }
    }
}

/// Whether the bytes spell a number whose integer part is the first `whole`
/// bytes: digits, alone or before a point and more digits.
pub open spec fn is_numeral_of(src: Seq<u8>, whole: nat) -> bool {
    &&& 0 < whole <= src.len()
    &&& forall|i: int| 0 <= i < whole ==> is_digit(#[trigger] src[i])
    &&& whole < src.len() ==> {
        &&& src[whole as int] == DOT
        &&& whole + 1 < src.len()
        &&& forall|i: int| whole < i < src.len() ==> is_digit(#[trigger] src[i])
    }
}

/// Whether the bytes spell a number: digits, or digits, a point and digits.
pub open spec fn is_numeral(src: Seq<u8>) -> bool {
    exists|whole: nat| is_numeral_of(src, whole)
}

/// A run goes as far as the bytes are of its class.
pub proof fn lemma_run_goes_to(src: Seq<u8>, pos: nat, end: nat, class: ByteClass)
    requires
        pos <= end <= src.len(),
        forall|i: int| pos <= i < end ==> class.holds(#[trigger] src[i]),
        end == src.len() || !class.holds(src[end as int]),
    ensures
        run_end(src, pos, class) == end,
    decreases end - pos,
{
    if pos < end {
        lemma_run_goes_to(src, pos + 1, end, class);
    }
}

/// The digits of a number scan to themselves: the tokens of a source that
/// spells a number are one `Number` with the source as its digits. So the
/// digits that a host writes for a double are read back as it wrote them.
pub proof fn lemma_digits_scan_to_themselves(src: Seq<u8>)
    requires
        is_numeral(src),
    ensures
        tokens_from(src, 0) == seq![
            TokenView {
                kind: TokenKind::Number,
                text: text_of(src, 0, src.len()),
                line: 1,
                column: src.len(),
            },
        ],
        errors_from(src, 0).len() == 0,
{
    let whole = choose|whole: nat| is_numeral_of(src, whole);
    let len = src.len();
    assert(is_digit(src[0]));
    lemma_run_goes_to(src, 1, whole, ByteClass::Digit);
    if whole < len {
        assert(is_digit(src[whole as int + 1]));
        lemma_run_goes_to(src, whole + 2, len, ByteClass::Digit);
    }
    assert(number_end(src, 0) == len);
    assert(punctuation(src[0], crate::scanner::byte_at(src, 1)) is None);
    assert(lexeme_end(src, 0) == len);
    assert(lexeme_at(src, 0) == Lexeme::Token(TokenKind::Number, text_of(src, 0, len)));
    assert forall|i: int| 0 <= i < len implies src[i] != NEWLINE by {
        if i != whole {
            assert(is_digit(src[i]));
        }
    }
    lemma_place_run(src, 0, len);
    assert(tokens_from(src, len) =~= Seq::empty());
    assert(errors_from(src, len) =~= Seq::empty());
    assert(tokens_from(src, 0) =~= token_at(src, 0) + tokens_from(src, len));
    assert(errors_from(src, 0) =~= error_at(src, 0) + errors_from(src, len));
}

} // verus!
