//! Where the parser reports: every diagnostic of a parse stands at the
//! place of one of the tokens parsed.
use vstd::prelude::*;
use crate::error::{DiagnosticView, ErrorType};
use crate::expressions::ExprView;
use crate::grammar;
use crate::grammar::{previous_at, Level, ParserState};
use crate::statements::StmtView;
use crate::tokens::{TokenKind, TokenView};

verus! {

/// Whether the diagnostic is a parser error at the place of one of the
/// tokens, or at line 0 for the end of tokens that no `Eof` ends.
pub open spec fn at_a_token(tokens: Seq<TokenView>, diagnostic: DiagnosticView) -> bool {
    &&& diagnostic.kind == ErrorType::ParserError
    &&& exists|i: nat|
        diagnostic.line == (#[trigger] grammar::token_at(tokens, i)).line && diagnostic.column == grammar::token_at(
            tokens,
            i,
        ).column
}

/// Whether every diagnostic is at the place of one of the tokens.
pub open spec fn placed(tokens: Seq<TokenView>, diagnostics: Seq<DiagnosticView>) -> bool {
    forall|j: int| 0 <= j < diagnostics.len() ==> at_a_token(tokens, #[trigger] diagnostics[j])
}

/// Whether reading any construct with this much fuel keeps every diagnostic
/// at the place of a token.
pub open spec fn keeps_places(tokens: Seq<TokenView>, fuel: nat) -> bool {
    &&& forall|state: ParserState|
        placed(tokens, state.diagnostics) ==> placed(
            tokens,
            (#[trigger] grammar::primary(tokens, state, fuel)).state.diagnostics,
        )
    &&& forall|read: Seq<StmtView>, state: ParserState|
        placed(tokens, state.diagnostics) ==> placed(
            tokens,
            (#[trigger] grammar::arguments(tokens, read, state, fuel)).state.diagnostics,
        )
    &&& forall|callee: ExprView, state: ParserState|
        placed(tokens, state.diagnostics) ==> placed(
            tokens,
            (#[trigger] grammar::calls(tokens, callee, state, fuel)).state.diagnostics,
        )
    &&& forall|state: ParserState|
        placed(tokens, state.diagnostics) ==> placed(
            tokens,
            (#[trigger] grammar::call(tokens, state, fuel)).state.diagnostics,
        )
    &&& forall|state: ParserState|
        placed(tokens, state.diagnostics) ==> placed(
            tokens,
            (#[trigger] grammar::unary(tokens, state, fuel)).state.diagnostics,
        )
    &&& forall|state: ParserState, level: Level|
        placed(tokens, state.diagnostics) ==> placed(
            tokens,
            (#[trigger] grammar::operand(tokens, state, level, fuel)).state.diagnostics,
        )
    &&& forall|left: ExprView, state: ParserState, level: Level|
        placed(tokens, state.diagnostics) ==> placed(
            tokens,
            (#[trigger] grammar::operations(tokens, left, state, level, fuel)).state.diagnostics,
        )
    &&& forall|state: ParserState, level: Level|
        placed(tokens, state.diagnostics) ==> placed(
            tokens,
            (#[trigger] grammar::binary(tokens, state, level, fuel)).state.diagnostics,
        )
    &&& forall|state: ParserState|
        placed(tokens, state.diagnostics) ==> placed(
            tokens,
            (#[trigger] grammar::assignment(tokens, state, fuel)).state.diagnostics,
        )
    &&& forall|read: Seq<StmtView>, state: ParserState|
        placed(tokens, state.diagnostics) ==> placed(
            tokens,
            (#[trigger] grammar::block(tokens, read, state, fuel)).state.diagnostics,
        )
    &&& forall|read: Seq<Seq<char>>, state: ParserState|
        placed(tokens, state.diagnostics) ==> placed(
            tokens,
            (#[trigger] grammar::parameters(tokens, read, state, fuel)).state.diagnostics,
        )
    &&& forall|state: ParserState, word: Seq<char>|
        placed(tokens, state.diagnostics) ==> placed(
            tokens,
            (#[trigger] grammar::condition(tokens, state, word, fuel)).state.diagnostics,
        )
    &&& forall|state: ParserState, message: Seq<char>|
        placed(tokens, state.diagnostics) ==> placed(
            tokens,
            (#[trigger] grammar::terminated(tokens, state, message, fuel)).state.diagnostics,
        )
    &&& forall|state: ParserState|
        placed(tokens, state.diagnostics) ==> placed(
            tokens,
            (#[trigger] grammar::for_initializer(tokens, state, fuel)).state.diagnostics,
        )
    &&& forall|state: ParserState|
        placed(tokens, state.diagnostics) ==> placed(
            tokens,
            (#[trigger] grammar::for_condition(tokens, state, fuel)).state.diagnostics,
        )
    &&& forall|state: ParserState|
        placed(tokens, state.diagnostics) ==> placed(
            tokens,
            (#[trigger] grammar::for_increment(tokens, state, fuel)).state.diagnostics,
        )
    &&& forall|state: ParserState|
        placed(tokens, state.diagnostics) ==> placed(
            tokens,
            (#[trigger] grammar::for_clauses(tokens, state, fuel)).state.diagnostics,
        )
    &&& forall|state: ParserState|
        placed(tokens, state.diagnostics) ==> placed(
            tokens,
            (#[trigger] grammar::for_loop(tokens, state, fuel)).state.diagnostics,
        )
    &&& forall|state: ParserState|
        placed(tokens, state.diagnostics) ==> placed(
            tokens,
            (#[trigger] grammar::function(tokens, state, fuel)).state.diagnostics,
        )
    &&& forall|state: ParserState|
        placed(tokens, state.diagnostics) ==> placed(
            tokens,
            (#[trigger] grammar::braces(tokens, state, fuel)).state.diagnostics,
        )
    &&& forall|state: ParserState|
        placed(tokens, state.diagnostics) ==> placed(
            tokens,
            (#[trigger] grammar::conditional(tokens, state, fuel)).state.diagnostics,
        )
    &&& forall|state: ParserState|
        placed(tokens, state.diagnostics) ==> placed(
            tokens,
            (#[trigger] grammar::while_loop(tokens, state, fuel)).state.diagnostics,
        )
    &&& forall|state: ParserState|
        placed(tokens, state.diagnostics) ==> placed(
            tokens,
            (#[trigger] grammar::initializer(tokens, state, fuel)).state.diagnostics,
        )
    &&& forall|state: ParserState|
        placed(tokens, state.diagnostics) ==> placed(
            tokens,
            (#[trigger] grammar::variable(tokens, state, fuel)).state.diagnostics,
        )
    &&& forall|state: ParserState, in_call: bool|
        placed(tokens, state.diagnostics) ==> placed(
            tokens,
            (#[trigger] grammar::expression_statement(tokens, state, in_call, fuel)).state.diagnostics,
        )
    &&& forall|state: ParserState, in_call: bool|
        placed(tokens, state.diagnostics) ==> placed(
            tokens,
            (#[trigger] grammar::statement(tokens, state, in_call, fuel)).state.diagnostics,
        )
}

/// A report at the place of a token keeps every diagnostic at the place of
/// a token.
pub proof fn lemma_report_is_placed(tokens: Seq<TokenView>)
    ensures
        forall|state: ParserState, i: nat, message: Seq<char>|
            placed(tokens, state.diagnostics) ==> placed(
                tokens,
                (#[trigger] state.report(grammar::token_at(tokens, i), message)).diagnostics,
            ),
        forall|state: ParserState, i: nat, message: Seq<char>|
            placed(tokens, state.diagnostics) ==> placed(
                tokens,
                (#[trigger] state.report(previous_at(tokens, i), message)).diagnostics,
            ),
        forall|state: ParserState|
            placed(tokens, state.diagnostics) ==> placed(
                tokens,
                (#[trigger] state.advance()).diagnostics,
            ),
{
    assert forall|state: ParserState, i: nat, message: Seq<char>|
        placed(tokens, state.diagnostics) implies placed(
        tokens,
        (#[trigger] state.report(grammar::token_at(tokens, i), message)).diagnostics,
    ) by {
        let after = state.report(grammar::token_at(tokens, i), message).diagnostics;
        assert forall|j: int| 0 <= j < after.len() implies at_a_token(tokens, #[trigger] after[j]) by {
            if j < state.diagnostics.len() {
                assert(after[j] == state.diagnostics[j]);
            } else {
                assert(after[j].line == grammar::token_at(tokens, i).line);
            }
        }
    }
    assert forall|state: ParserState, i: nat, message: Seq<char>|
        placed(tokens, state.diagnostics) implies placed(
        tokens,
        (#[trigger] state.report(previous_at(tokens, i), message)).diagnostics,
    ) by {
        let at = if i > 0 {
            (i - 1) as nat
        } else {
            0
        };
        assert(previous_at(tokens, i) == grammar::token_at(tokens, at));
    }
}

/// Whether every diagnostic of the state is at the place of a token.
pub open spec fn ok(tokens: Seq<TokenView>, state: ParserState) -> bool {
    placed(tokens, state.diagnostics)
}

proof fn lemma_primary_keeps_places(tokens: Seq<TokenView>, state: ParserState, fuel: nat)
    requires
        fuel > 0 ==> keeps_places(tokens, (fuel - 1) as nat),
        ok(tokens, state),
    ensures
        ok(tokens, grammar::primary(tokens, state, fuel).state),
{
    lemma_report_is_placed(tokens);
    let rest = (fuel - 1) as nat;
    if fuel > 0 {
        let inner = grammar::assignment(tokens, state.advance(), rest);
        assert(ok(tokens, state.advance()));
        assert(ok(tokens, inner.state));
        assert(ok(tokens, inner.state.advance()));
    }
}

proof fn lemma_arguments_keeps_places(
    tokens: Seq<TokenView>,
    read: Seq<StmtView>,
    state: ParserState,
    fuel: nat,
)
    requires
        fuel > 0 ==> keeps_places(tokens, (fuel - 1) as nat),
        ok(tokens, state),
    ensures
        ok(tokens, grammar::arguments(tokens, read, state, fuel).state),
{
    lemma_report_is_placed(tokens);
    let rest = (fuel - 1) as nat;
    if fuel > 0 {
        let token = grammar::token_at(tokens, state.pos);
        let counted = if read.len() >= 255 {
            state.report(token, "Can not have more than 255 arguments."@)
        } else {
            state
        };
        assert(ok(tokens, counted));
        let argument = grammar::statement(tokens, counted, true, rest);
        assert(ok(tokens, argument.state));
        if argument.value is Some {
            let more = grammar::arguments(
                tokens,
                read.push(argument.value.unwrap()),
                argument.state.advance(),
                rest,
            );
            assert(ok(tokens, argument.state.advance()));
            assert(ok(tokens, more.state));
        }
    }
}

proof fn lemma_calls_keeps_places(
    tokens: Seq<TokenView>,
    callee: ExprView,
    state: ParserState,
    fuel: nat,
)
    requires
        fuel > 0 ==> keeps_places(tokens, (fuel - 1) as nat),
        ok(tokens, state),
    ensures
        ok(tokens, grammar::calls(tokens, callee, state, fuel).state),
{
    lemma_report_is_placed(tokens);
    let rest = (fuel - 1) as nat;
    if fuel > 0 {
        let list = grammar::arguments(tokens, Seq::empty(), state.advance(), rest);
        assert(ok(tokens, state.advance()));
        assert(ok(tokens, list.state));
        if list.value is Some {
            let close = grammar::token_at(tokens, list.state.pos);
            let more = grammar::calls(
                tokens,
                ExprView::Call {
                    callee: Box::new(callee),
                    paren: close,
                    arguments: list.value.unwrap(),
                },
                list.state.advance(),
                rest,
            );
            assert(ok(tokens, list.state.advance()));
            assert(ok(tokens, more.state));
        }
    }
}

proof fn lemma_call_keeps_places(tokens: Seq<TokenView>, state: ParserState, fuel: nat)
    requires
        fuel > 0 ==> keeps_places(tokens, (fuel - 1) as nat),
        ok(tokens, state),
    ensures
        ok(tokens, grammar::call(tokens, state, fuel).state),
{
    lemma_report_is_placed(tokens);
    let rest = (fuel - 1) as nat;
    if fuel > 0 {
        let callee = grammar::primary(tokens, state, rest);
        assert(ok(tokens, callee.state));
        if callee.value is Some {
            let more = grammar::calls(tokens, callee.value.unwrap(), callee.state, rest);
            assert(ok(tokens, more.state));
        }
    }
}

proof fn lemma_unary_keeps_places(tokens: Seq<TokenView>, state: ParserState, fuel: nat)
    requires
        fuel > 0 ==> keeps_places(tokens, (fuel - 1) as nat),
        ok(tokens, state),
    ensures
        ok(tokens, grammar::unary(tokens, state, fuel).state),
{
    lemma_report_is_placed(tokens);
    let rest = (fuel - 1) as nat;
    if fuel > 0 {
        let operand = grammar::unary(tokens, state.advance(), rest);
        assert(ok(tokens, state.advance()));
        assert(ok(tokens, operand.state));
        let other = grammar::call(tokens, state, rest);
        assert(ok(tokens, other.state));
    }
}

proof fn lemma_operand_keeps_places(
    tokens: Seq<TokenView>,
    state: ParserState,
    level: Level,
    fuel: nat,
)
    requires
        fuel > 0 ==> keeps_places(tokens, (fuel - 1) as nat),
        ok(tokens, state),
    ensures
        ok(tokens, grammar::operand(tokens, state, level, fuel).state),
{
    lemma_report_is_placed(tokens);
    let rest = (fuel - 1) as nat;
    if fuel > 0 {
        assert(ok(tokens, grammar::binary(tokens, state, Level::And, rest).state));
        assert(ok(tokens, grammar::binary(tokens, state, Level::Equality, rest).state));
        assert(ok(tokens, grammar::binary(tokens, state, Level::Comparison, rest).state));
        assert(ok(tokens, grammar::binary(tokens, state, Level::Term, rest).state));
        assert(ok(tokens, grammar::binary(tokens, state, Level::Factor, rest).state));
        assert(ok(tokens, grammar::unary(tokens, state, rest).state));
    }
}

proof fn lemma_operations_keeps_places(
    tokens: Seq<TokenView>,
    left: ExprView,
    state: ParserState,
    level: Level,
    fuel: nat,
)
    requires
        fuel > 0 ==> keeps_places(tokens, (fuel - 1) as nat),
        ok(tokens, state),
    ensures
        ok(tokens, grammar::operations(tokens, left, state, level, fuel).state),
{
    lemma_report_is_placed(tokens);
    let rest = (fuel - 1) as nat;
    if fuel > 0 {
        let operator = grammar::token_at(tokens, state.pos);
        let right = grammar::operand(tokens, state.advance(), level, rest);
        assert(ok(tokens, state.advance()));
        assert(ok(tokens, right.state));
        if right.value is Some {
            let more = grammar::operations(
                tokens,
                level.join(left, operator, right.value.unwrap()),
                right.state,
                level,
                rest,
            );
            assert(ok(tokens, more.state));
        }
    }
}

proof fn lemma_binary_keeps_places(
    tokens: Seq<TokenView>,
    state: ParserState,
    level: Level,
    fuel: nat,
)
    requires
        fuel > 0 ==> keeps_places(tokens, (fuel - 1) as nat),
        ok(tokens, state),
    ensures
        ok(tokens, grammar::binary(tokens, state, level, fuel).state),
{
    lemma_report_is_placed(tokens);
    let rest = (fuel - 1) as nat;
    if fuel > 0 {
        let left = grammar::operand(tokens, state, level, rest);
        assert(ok(tokens, left.state));
        if left.value is Some {
            let more = grammar::operations(tokens, left.value.unwrap(), left.state, level, rest);
            assert(ok(tokens, more.state));
        }
    }
}

proof fn lemma_assignment_keeps_places(tokens: Seq<TokenView>, state: ParserState, fuel: nat)
    requires
        fuel > 0 ==> keeps_places(tokens, (fuel - 1) as nat),
        ok(tokens, state),
    ensures
        ok(tokens, grammar::assignment(tokens, state, fuel).state),
{
    lemma_report_is_placed(tokens);
    let rest = (fuel - 1) as nat;
    if fuel > 0 {
        let target = grammar::binary(tokens, state, Level::Or, rest);
        assert(ok(tokens, target.state));
        let source = grammar::assignment(tokens, target.state.advance(), rest);
        assert(ok(tokens, target.state.advance()));
        assert(ok(tokens, source.state));
    }
}

proof fn lemma_block_keeps_places(
    tokens: Seq<TokenView>,
    read: Seq<StmtView>,
    state: ParserState,
    fuel: nat,
)
    requires
        fuel > 0 ==> keeps_places(tokens, (fuel - 1) as nat),
        ok(tokens, state),
    ensures
        ok(tokens, grammar::block(tokens, read, state, fuel).state),
{
    lemma_report_is_placed(tokens);
    let rest = (fuel - 1) as nat;
    if fuel > 0 {
        let inner = grammar::statement(tokens, state, false, rest);
        assert(ok(tokens, inner.state));
        if inner.value is Some {
            let more = grammar::block(tokens, read.push(inner.value.unwrap()), inner.state, rest);
            assert(ok(tokens, more.state));
        }
    }
}

proof fn lemma_parameters_keeps_places(
    tokens: Seq<TokenView>,
    read: Seq<Seq<char>>,
    state: ParserState,
    fuel: nat,
)
    requires
        fuel > 0 ==> keeps_places(tokens, (fuel - 1) as nat),
        ok(tokens, state),
    ensures
        ok(tokens, grammar::parameters(tokens, read, state, fuel).state),
{
    lemma_report_is_placed(tokens);
    let rest = (fuel - 1) as nat;
    if fuel > 0 {
        let token = grammar::token_at(tokens, state.pos);
        let counted = if read.len() >= 255 {
            state.report(token, "Can not have more than 255 parameters."@)
        } else {
            state
        };
        assert(ok(tokens, counted));
        let named = counted.advance();
        assert(ok(tokens, named));
        let names = read.push(token.text);
        let more = grammar::parameters(tokens, names, named.advance(), rest);
        assert(ok(tokens, named.advance()));
        assert(ok(tokens, more.state));
        assert(ok(tokens, state.advance()));
    }
}

proof fn lemma_condition_keeps_places(
    tokens: Seq<TokenView>,
    state: ParserState,
    word: Seq<char>,
    fuel: nat,
)
    requires
        fuel > 0 ==> keeps_places(tokens, (fuel - 1) as nat),
        ok(tokens, state),
    ensures
        ok(tokens, grammar::condition(tokens, state, word, fuel).state),
{
    lemma_report_is_placed(tokens);
    let rest = (fuel - 1) as nat;
    if fuel > 0 {
        let inner = grammar::assignment(tokens, state.advance(), rest);
        assert(ok(tokens, state.advance()));
        assert(ok(tokens, inner.state));
        assert(ok(tokens, inner.state.advance()));
    }
}

proof fn lemma_terminated_keeps_places(
    tokens: Seq<TokenView>,
    state: ParserState,
    message: Seq<char>,
    fuel: nat,
)
    requires
        fuel > 0 ==> keeps_places(tokens, (fuel - 1) as nat),
        ok(tokens, state),
    ensures
        ok(tokens, grammar::terminated(tokens, state, message, fuel).state),
{
    lemma_report_is_placed(tokens);
    let rest = (fuel - 1) as nat;
    if fuel > 0 {
        let inner = grammar::assignment(tokens, state, rest);
        assert(ok(tokens, inner.state));
        assert(ok(tokens, inner.state.advance()));
        assert(ok(tokens, grammar::semicolon(tokens, inner.state, message).state));
    }
}

proof fn lemma_for_initializer_keeps_places(tokens: Seq<TokenView>, state: ParserState, fuel: nat)
    requires
        fuel > 0 ==> keeps_places(tokens, (fuel - 1) as nat),
        ok(tokens, state),
    ensures
        ok(tokens, grammar::for_initializer(tokens, state, fuel).state),
{
    lemma_report_is_placed(tokens);
    let rest = (fuel - 1) as nat;
    if fuel > 0 {
        assert(ok(tokens, state.advance()));
        assert(ok(tokens, grammar::statement(tokens, state, false, rest).state));
        assert(ok(tokens, grammar::expression_statement(tokens, state, false, rest).state));
    }
}

proof fn lemma_for_condition_keeps_places(tokens: Seq<TokenView>, state: ParserState, fuel: nat)
    requires
        fuel > 0 ==> keeps_places(tokens, (fuel - 1) as nat),
        ok(tokens, state),
    ensures
        ok(tokens, grammar::for_condition(tokens, state, fuel).state),
{
    lemma_report_is_placed(tokens);
    let rest = (fuel - 1) as nat;
    if fuel > 0 {
        assert(ok(tokens, state.advance()));
        assert(ok(
            tokens,
            grammar::terminated(tokens, state, "Expected ';' after expression."@, rest).state,
        ));
    }
}

proof fn lemma_for_increment_keeps_places(tokens: Seq<TokenView>, state: ParserState, fuel: nat)
    requires
        fuel > 0 ==> keeps_places(tokens, (fuel - 1) as nat),
        ok(tokens, state),
    ensures
        ok(tokens, grammar::for_increment(tokens, state, fuel).state),
{
    lemma_report_is_placed(tokens);
    let rest = (fuel - 1) as nat;
    if fuel > 0 {
        assert(ok(tokens, grammar::assignment(tokens, state, rest).state));
    }
}

proof fn lemma_for_clauses_keeps_places(tokens: Seq<TokenView>, state: ParserState, fuel: nat)
    requires
        fuel > 0 ==> keeps_places(tokens, (fuel - 1) as nat),
        ok(tokens, state),
    ensures
        ok(tokens, grammar::for_clauses(tokens, state, fuel).state),
{
    lemma_report_is_placed(tokens);
    let rest = (fuel - 1) as nat;
    if fuel > 0 {
        let first = grammar::for_initializer(tokens, state, rest);
        assert(ok(tokens, first.state));
        let second = grammar::for_condition(tokens, first.state, rest);
        assert(ok(tokens, second.state));
        let third = grammar::for_increment(tokens, second.state, rest);
        assert(ok(tokens, third.state));
        assert(ok(tokens, third.state.advance()));
    }
}

proof fn lemma_for_loop_keeps_places(tokens: Seq<TokenView>, state: ParserState, fuel: nat)
    requires
        fuel > 0 ==> keeps_places(tokens, (fuel - 1) as nat),
        ok(tokens, state),
    ensures
        ok(tokens, grammar::for_loop(tokens, state, fuel).state),
{
    lemma_report_is_placed(tokens);
    let rest = (fuel - 1) as nat;
    if fuel > 0 {
        let clauses = grammar::for_clauses(tokens, state, rest);
        assert(ok(tokens, clauses.state));
        let body = grammar::statement(tokens, clauses.state, false, rest);
        assert(ok(tokens, body.state));
    }
}

proof fn lemma_function_keeps_places(tokens: Seq<TokenView>, state: ParserState, fuel: nat)
    requires
        fuel > 0 ==> keeps_places(tokens, (fuel - 1) as nat),
        ok(tokens, state),
    ensures
        ok(tokens, grammar::function(tokens, state, fuel).state),
{
    lemma_report_is_placed(tokens);
    let rest = (fuel - 1) as nat;
    if fuel > 0 {
        let first = grammar::token_at(tokens, state.pos);
        let named = if first.kind == TokenKind::Identifier {
            state.advance()
        } else {
            state
        };
        assert(ok(tokens, named));
        let list = grammar::parameters(tokens, Seq::empty(), named.advance(), rest);
        assert(ok(tokens, named.advance()));
        assert(ok(tokens, list.state));
        let inner = grammar::braces(tokens, list.state.advance(), rest);
        assert(ok(tokens, list.state.advance()));
        assert(ok(tokens, inner.state));
    }
}

proof fn lemma_braces_keeps_places(tokens: Seq<TokenView>, state: ParserState, fuel: nat)
    requires
        fuel > 0 ==> keeps_places(tokens, (fuel - 1) as nat),
        ok(tokens, state),
    ensures
        ok(tokens, grammar::braces(tokens, state, fuel).state),
{
    lemma_report_is_placed(tokens);
    let rest = (fuel - 1) as nat;
    if fuel > 0 {
        let inner = grammar::block(tokens, Seq::empty(), state, rest);
        assert(ok(tokens, inner.state));
        assert(ok(tokens, inner.state.advance()));
    }
}

proof fn lemma_conditional_keeps_places(tokens: Seq<TokenView>, state: ParserState, fuel: nat)
    requires
        fuel > 0 ==> keeps_places(tokens, (fuel - 1) as nat),
        ok(tokens, state),
    ensures
        ok(tokens, grammar::conditional(tokens, state, fuel).state),
{
    lemma_report_is_placed(tokens);
    let rest = (fuel - 1) as nat;
    if fuel > 0 {
        let test = grammar::condition(tokens, state, "if"@, rest);
        assert(ok(tokens, test.state));
        let first = grammar::statement(tokens, test.state, false, rest);
        assert(ok(tokens, first.state));
        let second = grammar::statement(tokens, first.state.advance(), false, rest);
        assert(ok(tokens, first.state.advance()));
        assert(ok(tokens, second.state));
    }
}

proof fn lemma_while_loop_keeps_places(tokens: Seq<TokenView>, state: ParserState, fuel: nat)
    requires
        fuel > 0 ==> keeps_places(tokens, (fuel - 1) as nat),
        ok(tokens, state),
    ensures
        ok(tokens, grammar::while_loop(tokens, state, fuel).state),
{
    lemma_report_is_placed(tokens);
    let rest = (fuel - 1) as nat;
    if fuel > 0 {
        let test = grammar::condition(tokens, state, "while"@, rest);
        assert(ok(tokens, test.state));
        let inner = grammar::statement(tokens, test.state, false, rest);
        assert(ok(tokens, inner.state));
    }
}

proof fn lemma_initializer_keeps_places(tokens: Seq<TokenView>, state: ParserState, fuel: nat)
    requires
        fuel > 0 ==> keeps_places(tokens, (fuel - 1) as nat),
        ok(tokens, state),
    ensures
        ok(tokens, grammar::initializer(tokens, state, fuel).state),
{
    lemma_report_is_placed(tokens);
    let rest = (fuel - 1) as nat;
    if fuel > 0 {
        let value = grammar::terminated(
            tokens,
            state.advance(),
            "Expected ';' after expression."@,
            rest,
        );
        assert(ok(tokens, state.advance()));
        assert(ok(tokens, value.state));
        assert(ok(tokens, grammar::semicolon(tokens, state, "Expected ';' after expression."@).state));
    }
}

proof fn lemma_variable_keeps_places(tokens: Seq<TokenView>, state: ParserState, fuel: nat)
    requires
        fuel > 0 ==> keeps_places(tokens, (fuel - 1) as nat),
        ok(tokens, state),
    ensures
        ok(tokens, grammar::variable(tokens, state, fuel).state),
{
    lemma_report_is_placed(tokens);
    let rest = (fuel - 1) as nat;
    if fuel > 0 {
        let initial = grammar::initializer(tokens, state.advance(), rest);
        assert(ok(tokens, state.advance()));
        assert(ok(tokens, initial.state));
    }
}

proof fn lemma_statement_keeps_places(
    tokens: Seq<TokenView>,
    state: ParserState,
    in_call: bool,
    fuel: nat,
)
    requires
        fuel > 0 ==> keeps_places(tokens, (fuel - 1) as nat),
        ok(tokens, state),
    ensures
        ok(tokens, grammar::statement(tokens, state, in_call, fuel).state),
{
    lemma_report_is_placed(tokens);
    let rest = (fuel - 1) as nat;
    let first = grammar::token_at(tokens, state.pos);
    let after = state.advance();
    if fuel > 0 {
        assert(ok(tokens, after));
        match first.kind {
            TokenKind::Print => {
                assert(ok(
                    tokens,
                    grammar::terminated(tokens, after, "Expected ';' after statement."@, rest).state,
                ));
            },
            TokenKind::Return => {
                assert(ok(
                    tokens,
                    grammar::terminated(tokens, after, "Expected ';' after return value."@, rest).state,
                ));
            },
            TokenKind::Break => {
                assert(ok(
                    tokens,
                    grammar::semicolon(tokens, after, "Expected ';' after statement."@).state,
                ));
            },
            TokenKind::Var => {
                assert(ok(tokens, grammar::variable(tokens, after, rest).state));
            },
            TokenKind::LeftBrace => {
                assert(ok(tokens, grammar::braces(tokens, after, rest).state));
            },
            TokenKind::If => {
                assert(ok(tokens, grammar::conditional(tokens, after, rest).state));
            },
            TokenKind::While => {
                assert(ok(tokens, grammar::while_loop(tokens, after, rest).state));
            },
            TokenKind::For => {
                assert(ok(tokens, after.advance()));
                assert(ok(tokens, grammar::for_loop(tokens, after.advance(), rest).state));
            },
            TokenKind::Fun => {
                assert(ok(tokens, grammar::function(tokens, after, rest).state));
            },
            _ => {
                assert(ok(tokens, grammar::expression_statement(tokens, state, in_call, rest).state));
            },
        }
    }
}

proof fn lemma_expression_statement_keeps_places(
    tokens: Seq<TokenView>,
    state: ParserState,
    in_call: bool,
    fuel: nat,
)
    requires
        fuel > 0 ==> keeps_places(tokens, (fuel - 1) as nat),
        ok(tokens, state),
    ensures
        ok(tokens, grammar::expression_statement(tokens, state, in_call, fuel).state),
{
    let rest = (fuel - 1) as nat;
    if fuel > 0 {
        assert(ok(tokens, grammar::assignment(tokens, state, rest).state));
        assert(ok(
            tokens,
            grammar::terminated(tokens, state, "Expect ';' after expression."@, rest).state,
        ));
    }
}

/// Reading a construct keeps every diagnostic at the place of a token.
pub proof fn lemma_keeps_places(tokens: Seq<TokenView>, fuel: nat)
    ensures
        keeps_places(tokens, fuel),
    decreases fuel,
{
    if fuel > 0 {
        lemma_keeps_places(tokens, (fuel - 1) as nat);
    }
    assert forall|state: ParserState|
        placed(tokens, state.diagnostics) implies placed(
        tokens,
        (#[trigger] grammar::primary(tokens, state, fuel)).state.diagnostics,
    ) by {
        lemma_primary_keeps_places(tokens, state, fuel);
    }
    assert forall|read: Seq<StmtView>, state: ParserState|
        placed(tokens, state.diagnostics) implies placed(
        tokens,
        (#[trigger] grammar::arguments(tokens, read, state, fuel)).state.diagnostics,
    ) by {
        lemma_arguments_keeps_places(tokens, read, state, fuel);
    }
    assert forall|callee: ExprView, state: ParserState|
        placed(tokens, state.diagnostics) implies placed(
        tokens,
        (#[trigger] grammar::calls(tokens, callee, state, fuel)).state.diagnostics,
    ) by {
        lemma_calls_keeps_places(tokens, callee, state, fuel);
    }
    assert forall|state: ParserState|
        placed(tokens, state.diagnostics) implies placed(
        tokens,
        (#[trigger] grammar::call(tokens, state, fuel)).state.diagnostics,
    ) by {
        lemma_call_keeps_places(tokens, state, fuel);
    }
    assert forall|state: ParserState|
        placed(tokens, state.diagnostics) implies placed(
        tokens,
        (#[trigger] grammar::unary(tokens, state, fuel)).state.diagnostics,
    ) by {
        lemma_unary_keeps_places(tokens, state, fuel);
    }
    assert forall|state: ParserState, level: Level|
        placed(tokens, state.diagnostics) implies placed(
        tokens,
        (#[trigger] grammar::operand(tokens, state, level, fuel)).state.diagnostics,
    ) by {
        lemma_operand_keeps_places(tokens, state, level, fuel);
    }
    assert forall|left: ExprView, state: ParserState, level: Level|
        placed(tokens, state.diagnostics) implies placed(
        tokens,
        (#[trigger] grammar::operations(tokens, left, state, level, fuel)).state.diagnostics,
    ) by {
        lemma_operations_keeps_places(tokens, left, state, level, fuel);
    }
    assert forall|state: ParserState, level: Level|
        placed(tokens, state.diagnostics) implies placed(
        tokens,
        (#[trigger] grammar::binary(tokens, state, level, fuel)).state.diagnostics,
    ) by {
        lemma_binary_keeps_places(tokens, state, level, fuel);
    }
    assert forall|state: ParserState|
        placed(tokens, state.diagnostics) implies placed(
        tokens,
        (#[trigger] grammar::assignment(tokens, state, fuel)).state.diagnostics,
    ) by {
        lemma_assignment_keeps_places(tokens, state, fuel);
    }
    assert forall|read: Seq<StmtView>, state: ParserState|
        placed(tokens, state.diagnostics) implies placed(
        tokens,
        (#[trigger] grammar::block(tokens, read, state, fuel)).state.diagnostics,
    ) by {
        lemma_block_keeps_places(tokens, read, state, fuel);
    }
    assert forall|read: Seq<Seq<char>>, state: ParserState|
        placed(tokens, state.diagnostics) implies placed(
        tokens,
        (#[trigger] grammar::parameters(tokens, read, state, fuel)).state.diagnostics,
    ) by {
        lemma_parameters_keeps_places(tokens, read, state, fuel);
    }
    assert forall|state: ParserState, word: Seq<char>|
        placed(tokens, state.diagnostics) implies placed(
        tokens,
        (#[trigger] grammar::condition(tokens, state, word, fuel)).state.diagnostics,
    ) by {
        lemma_condition_keeps_places(tokens, state, word, fuel);
    }
    assert forall|state: ParserState, message: Seq<char>|
        placed(tokens, state.diagnostics) implies placed(
        tokens,
        (#[trigger] grammar::terminated(tokens, state, message, fuel)).state.diagnostics,
    ) by {
        lemma_terminated_keeps_places(tokens, state, message, fuel);
    }
    assert forall|state: ParserState|
        placed(tokens, state.diagnostics) implies placed(
        tokens,
        (#[trigger] grammar::for_initializer(tokens, state, fuel)).state.diagnostics,
    ) by {
        lemma_for_initializer_keeps_places(tokens, state, fuel);
    }
    assert forall|state: ParserState|
        placed(tokens, state.diagnostics) implies placed(
        tokens,
        (#[trigger] grammar::for_condition(tokens, state, fuel)).state.diagnostics,
    ) by {
        lemma_for_condition_keeps_places(tokens, state, fuel);
    }
    assert forall|state: ParserState|
        placed(tokens, state.diagnostics) implies placed(
        tokens,
        (#[trigger] grammar::for_increment(tokens, state, fuel)).state.diagnostics,
    ) by {
        lemma_for_increment_keeps_places(tokens, state, fuel);
    }
    assert forall|state: ParserState|
        placed(tokens, state.diagnostics) implies placed(
        tokens,
        (#[trigger] grammar::for_clauses(tokens, state, fuel)).state.diagnostics,
    ) by {
        lemma_for_clauses_keeps_places(tokens, state, fuel);
    }
    assert forall|state: ParserState|
        placed(tokens, state.diagnostics) implies placed(
        tokens,
        (#[trigger] grammar::for_loop(tokens, state, fuel)).state.diagnostics,
    ) by {
        lemma_for_loop_keeps_places(tokens, state, fuel);
    }
    assert forall|state: ParserState|
        placed(tokens, state.diagnostics) implies placed(
        tokens,
        (#[trigger] grammar::function(tokens, state, fuel)).state.diagnostics,
    ) by {
        lemma_function_keeps_places(tokens, state, fuel);
    }
    assert forall|state: ParserState|
        placed(tokens, state.diagnostics) implies placed(
        tokens,
        (#[trigger] grammar::braces(tokens, state, fuel)).state.diagnostics,
    ) by {
        lemma_braces_keeps_places(tokens, state, fuel);
    }
    assert forall|state: ParserState|
        placed(tokens, state.diagnostics) implies placed(
        tokens,
        (#[trigger] grammar::conditional(tokens, state, fuel)).state.diagnostics,
    ) by {
        lemma_conditional_keeps_places(tokens, state, fuel);
    }
    assert forall|state: ParserState|
        placed(tokens, state.diagnostics) implies placed(
        tokens,
        (#[trigger] grammar::while_loop(tokens, state, fuel)).state.diagnostics,
    ) by {
        lemma_while_loop_keeps_places(tokens, state, fuel);
    }
    assert forall|state: ParserState|
        placed(tokens, state.diagnostics) implies placed(
        tokens,
        (#[trigger] grammar::initializer(tokens, state, fuel)).state.diagnostics,
    ) by {
        lemma_initializer_keeps_places(tokens, state, fuel);
    }
    assert forall|state: ParserState|
        placed(tokens, state.diagnostics) implies placed(
        tokens,
        (#[trigger] grammar::variable(tokens, state, fuel)).state.diagnostics,
    ) by {
        lemma_variable_keeps_places(tokens, state, fuel);
    }
    assert forall|state: ParserState, in_call: bool|
        placed(tokens, state.diagnostics) implies placed(
        tokens,
        (#[trigger] grammar::expression_statement(tokens, state, in_call, fuel)).state.diagnostics,
    ) by {
        lemma_expression_statement_keeps_places(tokens, state, in_call, fuel);
    }
    assert forall|state: ParserState, in_call: bool|
        placed(tokens, state.diagnostics) implies placed(
        tokens,
        (#[trigger] grammar::statement(tokens, state, in_call, fuel)).state.diagnostics,
    ) by {
        lemma_statement_keeps_places(tokens, state, in_call, fuel);
    }
}

/// Reading a program keeps every diagnostic at the place of a token.
pub proof fn lemma_program_keeps_places(
    tokens: Seq<TokenView>,
    read: Seq<StmtView>,
    complete: bool,
    state: ParserState,
    fuel: nat,
)
    requires
        placed(tokens, state.diagnostics),
    ensures
        placed(tokens, grammar::program(tokens, read, complete, state, fuel).diagnostics),
    decreases fuel,
{
    if fuel > 0 && grammar::kind_at(tokens, state.pos) != TokenKind::Eof {
        lemma_keeps_places(tokens, (fuel - 1) as nat);
        let next = grammar::statement(tokens, state, false, (fuel - 1) as nat);
        let clean = complete && next.state.diagnostics.len() == state.diagnostics.len();
        match next.value {
            Some(value) => lemma_program_keeps_places(
                tokens,
                if clean {
                    read.push(value)
                } else {
                    read
                },
                clean,
                next.state,
                (fuel - 1) as nat,
            ),
            None => lemma_program_keeps_places(
                tokens,
                read,
                false,
                ParserState {
                    pos: grammar::recovered(tokens, state.pos, next.state.pos),
                    ..next.state
                },
                (fuel - 1) as nat,
            ),
        }
    }
}

/// Error location in the parser: every diagnostic of a parse is a parser
/// error at the line and column of one of the tokens parsed.
pub proof fn lemma_parser_errors_are_placed(tokens: Seq<TokenView>)
    ensures
        placed(tokens, grammar::parse(tokens).diagnostics),
{
    lemma_program_keeps_places(
        tokens,
        Seq::empty(),
        true,
        ParserState { pos: 0, diagnostics: Seq::empty() },
        grammar::fuel_for(tokens),
    );
}

} // verus!
