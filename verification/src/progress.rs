//! The parser goes forward: with the fuel that it is given it never goes
//! back, loses no diagnostic, and fails only where it reports an error.
use vstd::prelude::*;
use crate::expressions::ExprView;
use crate::grammar;
use crate::grammar::{enough, Level, Parsed, ParserState};
use crate::statements::StmtView;
use crate::tokens::{TokenKind, TokenView};

verus! {

/// How many tokens are left at `pos`.
pub open spec fn left(tokens: Seq<TokenView>, pos: nat) -> nat {
    if pos < tokens.len() {
        (tokens.len() - pos) as nat
    } else {
        0
    }
}

/// Whether the fuel is enough to read a construct of the rank from the
/// state on.
pub open spec fn fueled(tokens: Seq<TokenView>, state: ParserState, fuel: nat, rank: nat) -> bool {
    fuel >= enough(left(tokens, state.pos), rank)
}

/// Whether the outcome has not gone back, has lost no diagnostic, and has
/// reported an error if it is a failure.
pub open spec fn sound<T>(before: ParserState, after: Parsed<T>) -> bool {
    &&& after.state.pos >= before.pos
    &&& after.state.diagnostics.len() >= before.diagnostics.len()
    &&& after.value is None ==> after.state.diagnostics.len() > before.diagnostics.len()
}

/// Whether the outcome is sound and, if it is no failure, has gone past at
/// least one token.
pub open spec fn moving<T>(before: ParserState, after: Parsed<T>) -> bool {
    &&& sound(before, after)
    &&& after.value is Some ==> after.state.pos > before.pos
}

/// Whether every construct, read with this much fuel where that is enough
/// for it, has a sound outcome, and has gone forward if it cannot be empty.
pub open spec fn goes_forward(tokens: Seq<TokenView>, fuel: nat) -> bool {
    &&& forall|state: ParserState|
        fueled(tokens, state, fuel, 1) ==> moving(
            state,
            #[trigger] grammar::primary(tokens, state, fuel),
        )
    &&& forall|read: Seq<StmtView>, state: ParserState|
        fueled(tokens, state, fuel, 21) ==> sound(
            state,
            #[trigger] grammar::arguments(tokens, read, state, fuel),
        )
    &&& forall|callee: ExprView, state: ParserState|
        fueled(tokens, state, fuel, 2) ==> sound(
            state,
            #[trigger] grammar::calls(tokens, callee, state, fuel),
        )
    &&& forall|state: ParserState|
        fueled(tokens, state, fuel, 3) ==> moving(
            state,
            #[trigger] grammar::call(tokens, state, fuel),
        )
    &&& forall|state: ParserState|
        fueled(tokens, state, fuel, 4) ==> moving(
            state,
            #[trigger] grammar::unary(tokens, state, fuel),
        )
    &&& forall|state: ParserState, level: Level|
        fueled(tokens, state, fuel, (level.rank() - 1) as nat) ==> moving(
            state,
            #[trigger] grammar::operand(tokens, state, level, fuel),
        )
    &&& forall|left: ExprView, state: ParserState, level: Level|
        fueled(tokens, state, fuel, level.rank()) ==> sound(
            state,
            #[trigger] grammar::operations(tokens, left, state, level, fuel),
        )
    &&& forall|state: ParserState, level: Level|
        fueled(tokens, state, fuel, level.rank()) ==> moving(
            state,
            #[trigger] grammar::binary(tokens, state, level, fuel),
        )
    &&& forall|state: ParserState|
        fueled(tokens, state, fuel, 17) ==> moving(
            state,
            #[trigger] grammar::assignment(tokens, state, fuel),
        )
    &&& forall|state: ParserState, message: Seq<char>|
        fueled(tokens, state, fuel, 18) ==> moving(
            state,
            #[trigger] grammar::terminated(tokens, state, message, fuel),
        )
    &&& forall|state: ParserState, word: Seq<char>|
        fueled(tokens, state, fuel, 18) ==> moving(
            state,
            #[trigger] grammar::condition(tokens, state, word, fuel),
        )
    &&& forall|state: ParserState|
        fueled(tokens, state, fuel, 18) ==> sound(
            state,
            #[trigger] grammar::for_increment(tokens, state, fuel),
        )
    &&& forall|state: ParserState|
        fueled(tokens, state, fuel, 19) ==> moving(
            state,
            #[trigger] grammar::initializer(tokens, state, fuel),
        )
    &&& forall|state: ParserState, in_call: bool|
        fueled(tokens, state, fuel, 19) ==> moving(
            state,
            #[trigger] grammar::expression_statement(tokens, state, in_call, fuel),
        )
    &&& forall|state: ParserState|
        fueled(tokens, state, fuel, 19) ==> moving(
            state,
            #[trigger] grammar::for_condition(tokens, state, fuel),
        )
    &&& forall|state: ParserState, in_call: bool|
        fueled(tokens, state, fuel, 20) ==> moving(
            state,
            #[trigger] grammar::statement(tokens, state, in_call, fuel),
        )
    &&& forall|read: Seq<StmtView>, state: ParserState|
        fueled(tokens, state, fuel, 21) ==> sound(
            state,
            #[trigger] grammar::block(tokens, read, state, fuel),
        )
    &&& forall|state: ParserState|
        fueled(tokens, state, fuel, 21) ==> moving(
            state,
            #[trigger] grammar::for_initializer(tokens, state, fuel),
        )
    &&& forall|state: ParserState|
        fueled(tokens, state, fuel, 22) ==> moving(
            state,
            #[trigger] grammar::braces(tokens, state, fuel),
        )
    &&& forall|state: ParserState|
        fueled(tokens, state, fuel, 22) ==> moving(
            state,
            #[trigger] grammar::for_clauses(tokens, state, fuel),
        )
    &&& forall|read: Seq<Seq<char>>, state: ParserState|
        fueled(tokens, state, fuel, 1) ==> moving(
            state,
            #[trigger] grammar::parameters(tokens, read, state, fuel),
        )
    &&& forall|state: ParserState|
        fueled(tokens, state, fuel, 23) ==> moving(
            state,
            #[trigger] grammar::function(tokens, state, fuel),
        )
    &&& forall|state: ParserState|
        fueled(tokens, state, fuel, 23) ==> moving(
            state,
            #[trigger] grammar::conditional(tokens, state, fuel),
        )
    &&& forall|state: ParserState|
        fueled(tokens, state, fuel, 23) ==> moving(
            state,
            #[trigger] grammar::while_loop(tokens, state, fuel),
        )
    &&& forall|state: ParserState|
        fueled(tokens, state, fuel, 23) ==> moving(
            state,
            #[trigger] grammar::variable(tokens, state, fuel),
        )
    &&& forall|state: ParserState|
        fueled(tokens, state, fuel, 23) ==> moving(
            state,
            #[trigger] grammar::for_loop(tokens, state, fuel),
        )
}

proof fn lemma_primary_goes_forward(tokens: Seq<TokenView>, state: ParserState, fuel: nat)
    requires
        fuel > 0 ==> goes_forward(tokens, (fuel - 1) as nat),
        fueled(tokens, state, fuel, 1),
    ensures
        moving(state, grammar::primary(tokens, state, fuel)),
{
    let rest = (fuel - 1) as nat;
    if fuel > 0 {
        let inner = grammar::assignment(tokens, state.advance(), rest);
        if grammar::kind_at(tokens, state.pos) == TokenKind::LeftParen {
            assert(moving(state.advance(), inner));
        }
    }
}

proof fn lemma_arguments_goes_forward(
    tokens: Seq<TokenView>,
    read: Seq<StmtView>,
    state: ParserState,
    fuel: nat,
)
    requires
        fuel > 0 ==> goes_forward(tokens, (fuel - 1) as nat),
        fueled(tokens, state, fuel, 21),
    ensures
        sound(state, grammar::arguments(tokens, read, state, fuel)),
{
    let rest = (fuel - 1) as nat;
    if fuel > 0 {
        let token = grammar::token_at(tokens, state.pos);
        let counted = if read.len() >= 255 {
            state.report(token, "Can not have more than 255 arguments."@)
        } else {
            state
        };
        if !(read.len() == 0 && (token.kind == TokenKind::Eof || token.kind
            == TokenKind::RightParen)) {
            let argument = grammar::statement(tokens, counted, true, rest);
            assert(moving(counted, argument));
            if argument.value is Some && grammar::kind_at(tokens, argument.state.pos)
                == TokenKind::Comma {
                let more = grammar::arguments(
                    tokens,
                    read.push(argument.value.unwrap()),
                    argument.state.advance(),
                    rest,
                );
                assert(sound(argument.state.advance(), more));
            }
        }
    }
}

proof fn lemma_calls_goes_forward(
    tokens: Seq<TokenView>,
    callee: ExprView,
    state: ParserState,
    fuel: nat,
)
    requires
        fuel > 0 ==> goes_forward(tokens, (fuel - 1) as nat),
        fueled(tokens, state, fuel, 2),
    ensures
        sound(state, grammar::calls(tokens, callee, state, fuel)),
{
    let rest = (fuel - 1) as nat;
    if fuel > 0 {
        if grammar::kind_at(tokens, state.pos) == TokenKind::LeftParen {
            let list = grammar::arguments(tokens, Seq::empty(), state.advance(), rest);
            assert(sound(state.advance(), list));
            if list.value is Some && grammar::kind_at(tokens, list.state.pos)
                == TokenKind::RightParen {
                let more = grammar::calls(
                    tokens,
                    ExprView::Call {
                        callee: Box::new(callee),
                        paren: grammar::token_at(tokens, list.state.pos),
                        arguments: list.value.unwrap(),
                    },
                    list.state.advance(),
                    rest,
                );
                assert(sound(list.state.advance(), more));
            }
        }
    }
}

proof fn lemma_call_goes_forward(tokens: Seq<TokenView>, state: ParserState, fuel: nat)
    requires
        fuel > 0 ==> goes_forward(tokens, (fuel - 1) as nat),
        fueled(tokens, state, fuel, 3),
    ensures
        moving(state, grammar::call(tokens, state, fuel)),
{
    let rest = (fuel - 1) as nat;
    if fuel > 0 {
        let callee = grammar::primary(tokens, state, rest);
        assert(moving(state, callee));
        if callee.value is Some {
            let more = grammar::calls(tokens, callee.value.unwrap(), callee.state, rest);
            assert(sound(callee.state, more));
        }
    }
}

proof fn lemma_unary_goes_forward(tokens: Seq<TokenView>, state: ParserState, fuel: nat)
    requires
        fuel > 0 ==> goes_forward(tokens, (fuel - 1) as nat),
        fueled(tokens, state, fuel, 4),
    ensures
        moving(state, grammar::unary(tokens, state, fuel)),
{
    let rest = (fuel - 1) as nat;
    if fuel > 0 {
        let kind = grammar::kind_at(tokens, state.pos);
        if kind == TokenKind::Bang || kind == TokenKind::Minus {
            assert(moving(state.advance(), grammar::unary(tokens, state.advance(), rest)));
        } else {
            assert(moving(state, grammar::call(tokens, state, rest)));
        }
    }
}

proof fn lemma_operand_goes_forward(
    tokens: Seq<TokenView>,
    state: ParserState,
    level: Level,
    fuel: nat,
)
    requires
        fuel > 0 ==> goes_forward(tokens, (fuel - 1) as nat),
        fueled(tokens, state, fuel, (level.rank() - 1) as nat),
    ensures
        moving(state, grammar::operand(tokens, state, level, fuel)),
{
    let rest = (fuel - 1) as nat;
    if fuel > 0 {
        match level {
            Level::Or => {
                assert(moving(state, grammar::binary(tokens, state, Level::And, rest)));
            },
            Level::And => {
                assert(moving(state, grammar::binary(tokens, state, Level::Equality, rest)));
            },
            Level::Equality => {
                assert(moving(state, grammar::binary(tokens, state, Level::Comparison, rest)));
            },
            Level::Comparison => {
                assert(moving(state, grammar::binary(tokens, state, Level::Term, rest)));
            },
            Level::Term => {
                assert(moving(state, grammar::binary(tokens, state, Level::Factor, rest)));
            },
            Level::Factor => {
                assert(moving(state, grammar::unary(tokens, state, rest)));
            },
        }
    }
}

proof fn lemma_operations_goes_forward(
    tokens: Seq<TokenView>,
    left: ExprView,
    state: ParserState,
    level: Level,
    fuel: nat,
)
    requires
        fuel > 0 ==> goes_forward(tokens, (fuel - 1) as nat),
        fueled(tokens, state, fuel, level.rank()),
    ensures
        sound(state, grammar::operations(tokens, left, state, level, fuel)),
{
    let rest = (fuel - 1) as nat;
    if fuel > 0 {
        let operator = grammar::token_at(tokens, state.pos);
        if level.has(operator.kind) {
            let right = grammar::operand(tokens, state.advance(), level, rest);
            assert(moving(state.advance(), right));
            if right.value is Some {
                let more = grammar::operations(
                    tokens,
                    level.join(left, operator, right.value.unwrap()),
                    right.state,
                    level,
                    rest,
                );
                assert(sound(right.state, more));
            }
        }
    }
}

proof fn lemma_binary_goes_forward(
    tokens: Seq<TokenView>,
    state: ParserState,
    level: Level,
    fuel: nat,
)
    requires
        fuel > 0 ==> goes_forward(tokens, (fuel - 1) as nat),
        fueled(tokens, state, fuel, level.rank()),
    ensures
        moving(state, grammar::binary(tokens, state, level, fuel)),
{
    let rest = (fuel - 1) as nat;
    if fuel > 0 {
        let left = grammar::operand(tokens, state, level, rest);
        assert(moving(state, left));
        if left.value is Some {
            let more = grammar::operations(tokens, left.value.unwrap(), left.state, level, rest);
            assert(sound(left.state, more));
        }
    }
}

proof fn lemma_assignment_goes_forward(tokens: Seq<TokenView>, state: ParserState, fuel: nat)
    requires
        fuel > 0 ==> goes_forward(tokens, (fuel - 1) as nat),
        fueled(tokens, state, fuel, 17),
    ensures
        moving(state, grammar::assignment(tokens, state, fuel)),
{
    let rest = (fuel - 1) as nat;
    if fuel > 0 {
        let target = grammar::binary(tokens, state, Level::Or, rest);
        assert(moving(state, target));
        let sign = grammar::kind_at(tokens, target.state.pos);
        if target.value is Some && (sign == TokenKind::Equal || grammar::compound(sign) is Some) {
            let source = grammar::assignment(tokens, target.state.advance(), rest);
            assert(moving(target.state.advance(), source));
        }
    }
}

proof fn lemma_terminated_goes_forward(
    tokens: Seq<TokenView>,
    state: ParserState,
    message: Seq<char>,
    fuel: nat,
)
    requires
        fuel > 0 ==> goes_forward(tokens, (fuel - 1) as nat),
        fueled(tokens, state, fuel, 18),
    ensures
        moving(state, grammar::terminated(tokens, state, message, fuel)),
{
    let rest = (fuel - 1) as nat;
    if fuel > 0 {
        assert(moving(state, grammar::assignment(tokens, state, rest)));
    }
}

proof fn lemma_condition_goes_forward(
    tokens: Seq<TokenView>,
    state: ParserState,
    word: Seq<char>,
    fuel: nat,
)
    requires
        fuel > 0 ==> goes_forward(tokens, (fuel - 1) as nat),
        fueled(tokens, state, fuel, 18),
    ensures
        moving(state, grammar::condition(tokens, state, word, fuel)),
{
    let rest = (fuel - 1) as nat;
    if fuel > 0 {
        if grammar::kind_at(tokens, state.pos) == TokenKind::LeftParen {
            assert(moving(state.advance(), grammar::assignment(tokens, state.advance(), rest)));
        }
    }
}

proof fn lemma_for_increment_goes_forward(tokens: Seq<TokenView>, state: ParserState, fuel: nat)
    requires
        fuel > 0 ==> goes_forward(tokens, (fuel - 1) as nat),
        fueled(tokens, state, fuel, 18),
    ensures
        sound(state, grammar::for_increment(tokens, state, fuel)),
{
    let rest = (fuel - 1) as nat;
    if fuel > 0 {
        assert(moving(state, grammar::assignment(tokens, state, rest)));
    }
}

proof fn lemma_initializer_goes_forward(tokens: Seq<TokenView>, state: ParserState, fuel: nat)
    requires
        fuel > 0 ==> goes_forward(tokens, (fuel - 1) as nat),
        fueled(tokens, state, fuel, 19),
    ensures
        moving(state, grammar::initializer(tokens, state, fuel)),
{
    let rest = (fuel - 1) as nat;
    if fuel > 0 {
        if grammar::kind_at(tokens, state.pos) == TokenKind::Equal {
            assert(moving(
                state.advance(),
                grammar::terminated(
                    tokens,
                    state.advance(),
                    "Expected ';' after expression."@,
                    rest,
                ),
            ));
        }
    }
}

proof fn lemma_expression_statement_goes_forward(
    tokens: Seq<TokenView>,
    state: ParserState,
    in_call: bool,
    fuel: nat,
)
    requires
        fuel > 0 ==> goes_forward(tokens, (fuel - 1) as nat),
        fueled(tokens, state, fuel, 19),
    ensures
        moving(state, grammar::expression_statement(tokens, state, in_call, fuel)),
{
    let rest = (fuel - 1) as nat;
    if fuel > 0 {
        assert(moving(state, grammar::assignment(tokens, state, rest)));
        assert(moving(
            state,
            grammar::terminated(tokens, state, "Expect ';' after expression."@, rest),
        ));
    }
}

proof fn lemma_for_condition_goes_forward(tokens: Seq<TokenView>, state: ParserState, fuel: nat)
    requires
        fuel > 0 ==> goes_forward(tokens, (fuel - 1) as nat),
        fueled(tokens, state, fuel, 19),
    ensures
        moving(state, grammar::for_condition(tokens, state, fuel)),
{
    let rest = (fuel - 1) as nat;
    if fuel > 0 {
        assert(moving(
            state,
            grammar::terminated(tokens, state, "Expected ';' after expression."@, rest),
        ));
    }
}

proof fn lemma_statement_goes_forward(
    tokens: Seq<TokenView>,
    state: ParserState,
    in_call: bool,
    fuel: nat,
)
    requires
        fuel > 0 ==> goes_forward(tokens, (fuel - 1) as nat),
        fueled(tokens, state, fuel, 20),
    ensures
        moving(state, grammar::statement(tokens, state, in_call, fuel)),
{
    let rest = (fuel - 1) as nat;
    if fuel > 0 {
        let after = state.advance();
        match grammar::kind_at(tokens, state.pos) {
            TokenKind::Print => {
                assert(moving(
                    after,
                    grammar::terminated(tokens, after, "Expected ';' after statement."@, rest),
                ));
            },
            TokenKind::Return => {
                assert(moving(
                    after,
                    grammar::terminated(tokens, after, "Expected ';' after return value."@, rest),
                ));
            },
            TokenKind::Break => {},
            TokenKind::Var => {
                assert(moving(after, grammar::variable(tokens, after, rest)));
            },
            TokenKind::LeftBrace => {
                assert(moving(after, grammar::braces(tokens, after, rest)));
            },
            TokenKind::If => {
                assert(moving(after, grammar::conditional(tokens, after, rest)));
            },
            TokenKind::While => {
                assert(moving(after, grammar::while_loop(tokens, after, rest)));
            },
            TokenKind::For => {
                if grammar::kind_at(tokens, after.pos) == TokenKind::LeftParen {
                    assert(moving(after.advance(), grammar::for_loop(tokens, after.advance(), rest)));
                }
            },
            TokenKind::Fun => {
                assert(moving(after, grammar::function(tokens, after, rest)));
            },
            _ => {
                assert(moving(state, grammar::expression_statement(tokens, state, in_call, rest)));
            },
        }
    }
}

proof fn lemma_block_goes_forward(
    tokens: Seq<TokenView>,
    read: Seq<StmtView>,
    state: ParserState,
    fuel: nat,
)
    requires
        fuel > 0 ==> goes_forward(tokens, (fuel - 1) as nat),
        fueled(tokens, state, fuel, 21),
    ensures
        sound(state, grammar::block(tokens, read, state, fuel)),
{
    let rest = (fuel - 1) as nat;
    if fuel > 0 {
        let kind = grammar::kind_at(tokens, state.pos);
        if kind != TokenKind::Eof && kind != TokenKind::RightBrace {
            let inner = grammar::statement(tokens, state, false, rest);
            assert(moving(state, inner));
            if inner.value is Some {
                let more = grammar::block(tokens, read.push(inner.value.unwrap()), inner.state, rest);
                assert(sound(inner.state, more));
            }
        }
    }
}

proof fn lemma_for_initializer_goes_forward(tokens: Seq<TokenView>, state: ParserState, fuel: nat)
    requires
        fuel > 0 ==> goes_forward(tokens, (fuel - 1) as nat),
        fueled(tokens, state, fuel, 21),
    ensures
        moving(state, grammar::for_initializer(tokens, state, fuel)),
{
    let rest = (fuel - 1) as nat;
    if fuel > 0 {
        let kind = grammar::kind_at(tokens, state.pos);
        if kind == TokenKind::Var {
            assert(moving(state, grammar::statement(tokens, state, false, rest)));
        } else if kind != TokenKind::Semicolon {
            assert(moving(state, grammar::expression_statement(tokens, state, false, rest)));
        }
    }
}

proof fn lemma_braces_goes_forward(tokens: Seq<TokenView>, state: ParserState, fuel: nat)
    requires
        fuel > 0 ==> goes_forward(tokens, (fuel - 1) as nat),
        fueled(tokens, state, fuel, 22),
    ensures
        moving(state, grammar::braces(tokens, state, fuel)),
{
    let rest = (fuel - 1) as nat;
    if fuel > 0 {
        assert(sound(state, grammar::block(tokens, Seq::empty(), state, rest)));
    }
}

proof fn lemma_for_clauses_goes_forward(tokens: Seq<TokenView>, state: ParserState, fuel: nat)
    requires
        fuel > 0 ==> goes_forward(tokens, (fuel - 1) as nat),
        fueled(tokens, state, fuel, 22),
    ensures
        moving(state, grammar::for_clauses(tokens, state, fuel)),
{
    let rest = (fuel - 1) as nat;
    if fuel > 0 {
        let first = grammar::for_initializer(tokens, state, rest);
        assert(moving(state, first));
        let second = grammar::for_condition(tokens, first.state, rest);
        assert(moving(first.state, second));
        let third = grammar::for_increment(tokens, second.state, rest);
        assert(sound(second.state, third));
    }
}

proof fn lemma_parameters_goes_forward(
    tokens: Seq<TokenView>,
    read: Seq<Seq<char>>,
    state: ParserState,
    fuel: nat,
)
    requires
        fuel > 0 ==> goes_forward(tokens, (fuel - 1) as nat),
        fueled(tokens, state, fuel, 1),
    ensures
        moving(state, grammar::parameters(tokens, read, state, fuel)),
{
    let rest = (fuel - 1) as nat;
    if fuel > 0 {
        let token = grammar::token_at(tokens, state.pos);
        if token.kind == TokenKind::Identifier {
            let counted = if read.len() >= 255 {
                state.report(token, "Can not have more than 255 parameters."@)
            } else {
                state
            };
            let named = counted.advance();
            let names = read.push(token.text);
            if grammar::kind_at(tokens, named.pos) == TokenKind::Comma {
                let more = grammar::parameters(tokens, names, named.advance(), rest);
                assert(moving(named.advance(), more));
            }
        }
    }
}

proof fn lemma_function_goes_forward(tokens: Seq<TokenView>, state: ParserState, fuel: nat)
    requires
        fuel > 0 ==> goes_forward(tokens, (fuel - 1) as nat),
        fueled(tokens, state, fuel, 23),
    ensures
        moving(state, grammar::function(tokens, state, fuel)),
{
    let rest = (fuel - 1) as nat;
    if fuel > 0 {
        let named = if grammar::kind_at(tokens, state.pos) == TokenKind::Identifier {
            state.advance()
        } else {
            state
        };
        if grammar::kind_at(tokens, named.pos) == TokenKind::LeftParen {
            let list = grammar::parameters(tokens, Seq::empty(), named.advance(), rest);
            assert(moving(named.advance(), list));
            if list.value is Some && grammar::kind_at(tokens, list.state.pos)
                == TokenKind::LeftBrace {
                let inner = grammar::braces(tokens, list.state.advance(), rest);
                assert(moving(list.state.advance(), inner));
            }
        }
    }
}

proof fn lemma_conditional_goes_forward(tokens: Seq<TokenView>, state: ParserState, fuel: nat)
    requires
        fuel > 0 ==> goes_forward(tokens, (fuel - 1) as nat),
        fueled(tokens, state, fuel, 23),
    ensures
        moving(state, grammar::conditional(tokens, state, fuel)),
{
    let rest = (fuel - 1) as nat;
    if fuel > 0 {
        let test = grammar::condition(tokens, state, "if"@, rest);
        assert(moving(state, test));
        if test.value is Some {
            let first = grammar::statement(tokens, test.state, false, rest);
            assert(moving(test.state, first));
            if first.value is Some && grammar::kind_at(tokens, first.state.pos) == TokenKind::Else {
                let second = grammar::statement(tokens, first.state.advance(), false, rest);
                assert(moving(first.state.advance(), second));
            }
        }
    }
}

proof fn lemma_while_loop_goes_forward(tokens: Seq<TokenView>, state: ParserState, fuel: nat)
    requires
        fuel > 0 ==> goes_forward(tokens, (fuel - 1) as nat),
        fueled(tokens, state, fuel, 23),
    ensures
        moving(state, grammar::while_loop(tokens, state, fuel)),
{
    let rest = (fuel - 1) as nat;
    if fuel > 0 {
        let test = grammar::condition(tokens, state, "while"@, rest);
        assert(moving(state, test));
        if test.value is Some {
            assert(moving(test.state, grammar::statement(tokens, test.state, false, rest)));
        }
    }
}

proof fn lemma_variable_goes_forward(tokens: Seq<TokenView>, state: ParserState, fuel: nat)
    requires
        fuel > 0 ==> goes_forward(tokens, (fuel - 1) as nat),
        fueled(tokens, state, fuel, 23),
    ensures
        moving(state, grammar::variable(tokens, state, fuel)),
{
    let rest = (fuel - 1) as nat;
    if fuel > 0 {
        if grammar::kind_at(tokens, state.pos) == TokenKind::Identifier {
            assert(moving(state.advance(), grammar::initializer(tokens, state.advance(), rest)));
        }
    }
}

proof fn lemma_for_loop_goes_forward(tokens: Seq<TokenView>, state: ParserState, fuel: nat)
    requires
        fuel > 0 ==> goes_forward(tokens, (fuel - 1) as nat),
        fueled(tokens, state, fuel, 23),
    ensures
        moving(state, grammar::for_loop(tokens, state, fuel)),
{
    let rest = (fuel - 1) as nat;
    if fuel > 0 {
        let clauses = grammar::for_clauses(tokens, state, rest);
        assert(moving(state, clauses));
        if clauses.value is Some {
            assert(moving(clauses.state, grammar::statement(tokens, clauses.state, false, rest)));
        }
    }
}

/// Every construct goes forward.
pub proof fn lemma_goes_forward(tokens: Seq<TokenView>, fuel: nat)
    ensures
        goes_forward(tokens, fuel),
    decreases fuel,
{
    if fuel > 0 {
        lemma_goes_forward(tokens, (fuel - 1) as nat);
    }
    assert forall|state: ParserState| fueled(tokens, state, fuel, 1) implies moving(
        state,
        #[trigger] grammar::primary(tokens, state, fuel),
    ) by {
        lemma_primary_goes_forward(tokens, state, fuel);
    }
    assert forall|read: Seq<StmtView>, state: ParserState| fueled(tokens, state, fuel, 21) implies sound(
        state,
        #[trigger] grammar::arguments(tokens, read, state, fuel),
    ) by {
        lemma_arguments_goes_forward(tokens, read, state, fuel);
    }
    assert forall|callee: ExprView, state: ParserState| fueled(tokens, state, fuel, 2) implies sound(
        state,
        #[trigger] grammar::calls(tokens, callee, state, fuel),
    ) by {
        lemma_calls_goes_forward(tokens, callee, state, fuel);
    }
    assert forall|state: ParserState| fueled(tokens, state, fuel, 3) implies moving(
        state,
        #[trigger] grammar::call(tokens, state, fuel),
    ) by {
        lemma_call_goes_forward(tokens, state, fuel);
    }
    assert forall|state: ParserState| fueled(tokens, state, fuel, 4) implies moving(
        state,
        #[trigger] grammar::unary(tokens, state, fuel),
    ) by {
        lemma_unary_goes_forward(tokens, state, fuel);
    }
    assert forall|state: ParserState, level: Level| fueled(tokens, state, fuel, (level.rank() - 1) as nat) implies moving(
        state,
        #[trigger] grammar::operand(tokens, state, level, fuel),
    ) by {
        lemma_operand_goes_forward(tokens, state, level, fuel);
    }
    assert forall|left: ExprView, state: ParserState, level: Level| fueled(tokens, state, fuel, level.rank()) implies sound(
        state,
        #[trigger] grammar::operations(tokens, left, state, level, fuel),
    ) by {
        lemma_operations_goes_forward(tokens, left, state, level, fuel);
    }
    assert forall|state: ParserState, level: Level| fueled(tokens, state, fuel, level.rank()) implies moving(
        state,
        #[trigger] grammar::binary(tokens, state, level, fuel),
    ) by {
        lemma_binary_goes_forward(tokens, state, level, fuel);
    }
    assert forall|state: ParserState| fueled(tokens, state, fuel, 17) implies moving(
        state,
        #[trigger] grammar::assignment(tokens, state, fuel),
    ) by {
        lemma_assignment_goes_forward(tokens, state, fuel);
    }
    assert forall|state: ParserState, message: Seq<char>| fueled(tokens, state, fuel, 18) implies moving(
        state,
        #[trigger] grammar::terminated(tokens, state, message, fuel),
    ) by {
        lemma_terminated_goes_forward(tokens, state, message, fuel);
    }
    assert forall|state: ParserState, word: Seq<char>| fueled(tokens, state, fuel, 18) implies moving(
        state,
        #[trigger] grammar::condition(tokens, state, word, fuel),
    ) by {
        lemma_condition_goes_forward(tokens, state, word, fuel);
    }
    assert forall|state: ParserState| fueled(tokens, state, fuel, 18) implies sound(
        state,
        #[trigger] grammar::for_increment(tokens, state, fuel),
    ) by {
        lemma_for_increment_goes_forward(tokens, state, fuel);
    }
    assert forall|state: ParserState| fueled(tokens, state, fuel, 19) implies moving(
        state,
        #[trigger] grammar::initializer(tokens, state, fuel),
    ) by {
        lemma_initializer_goes_forward(tokens, state, fuel);
    }
    assert forall|state: ParserState, in_call: bool| fueled(tokens, state, fuel, 19) implies moving(
        state,
        #[trigger] grammar::expression_statement(tokens, state, in_call, fuel),
    ) by {
        lemma_expression_statement_goes_forward(tokens, state, in_call, fuel);
    }
    assert forall|state: ParserState| fueled(tokens, state, fuel, 19) implies moving(
        state,
        #[trigger] grammar::for_condition(tokens, state, fuel),
    ) by {
        lemma_for_condition_goes_forward(tokens, state, fuel);
    }
    assert forall|state: ParserState, in_call: bool| fueled(tokens, state, fuel, 20) implies moving(
        state,
        #[trigger] grammar::statement(tokens, state, in_call, fuel),
    ) by {
        lemma_statement_goes_forward(tokens, state, in_call, fuel);
    }
    assert forall|read: Seq<StmtView>, state: ParserState| fueled(tokens, state, fuel, 21) implies sound(
        state,
        #[trigger] grammar::block(tokens, read, state, fuel),
    ) by {
        lemma_block_goes_forward(tokens, read, state, fuel);
    }
    assert forall|state: ParserState| fueled(tokens, state, fuel, 21) implies moving(
        state,
        #[trigger] grammar::for_initializer(tokens, state, fuel),
    ) by {
        lemma_for_initializer_goes_forward(tokens, state, fuel);
    }
    assert forall|state: ParserState| fueled(tokens, state, fuel, 22) implies moving(
        state,
        #[trigger] grammar::braces(tokens, state, fuel),
    ) by {
        lemma_braces_goes_forward(tokens, state, fuel);
    }
    assert forall|state: ParserState| fueled(tokens, state, fuel, 22) implies moving(
        state,
        #[trigger] grammar::for_clauses(tokens, state, fuel),
    ) by {
        lemma_for_clauses_goes_forward(tokens, state, fuel);
    }
    assert forall|read: Seq<Seq<char>>, state: ParserState| fueled(tokens, state, fuel, 1) implies moving(
        state,
        #[trigger] grammar::parameters(tokens, read, state, fuel),
    ) by {
        lemma_parameters_goes_forward(tokens, read, state, fuel);
    }
    assert forall|state: ParserState| fueled(tokens, state, fuel, 23) implies moving(
        state,
        #[trigger] grammar::function(tokens, state, fuel),
    ) by {
        lemma_function_goes_forward(tokens, state, fuel);
    }
    assert forall|state: ParserState| fueled(tokens, state, fuel, 23) implies moving(
        state,
        #[trigger] grammar::conditional(tokens, state, fuel),
    ) by {
        lemma_conditional_goes_forward(tokens, state, fuel);
    }
    assert forall|state: ParserState| fueled(tokens, state, fuel, 23) implies moving(
        state,
        #[trigger] grammar::while_loop(tokens, state, fuel),
    ) by {
        lemma_while_loop_goes_forward(tokens, state, fuel);
    }
    assert forall|state: ParserState| fueled(tokens, state, fuel, 23) implies moving(
        state,
        #[trigger] grammar::variable(tokens, state, fuel),
    ) by {
        lemma_variable_goes_forward(tokens, state, fuel);
    }
    assert forall|state: ParserState| fueled(tokens, state, fuel, 23) implies moving(
        state,
        #[trigger] grammar::for_loop(tokens, state, fuel),
    ) by {
        lemma_for_loop_goes_forward(tokens, state, fuel);
    }
}

/// The search for a statement boundary does not go back.
pub proof fn lemma_synchronized_goes_forward(tokens: Seq<TokenView>, pos: nat)
    ensures
        grammar::synchronized(tokens, pos) >= pos,
    decreases tokens.len() - pos,
{
    if pos < tokens.len() && tokens[pos as int].kind != TokenKind::Eof
        && !grammar::starts_statement(tokens[pos as int].kind) && tokens[pos as int].kind
        != TokenKind::Semicolon {
        lemma_synchronized_goes_forward(tokens, pos + 1);
    }
}

/// A program loses no diagnostic, and is complete if and only if it has
/// reported no error.
pub proof fn lemma_program_goes_forward(
    tokens: Seq<TokenView>,
    read: Seq<StmtView>,
    complete: bool,
    state: ParserState,
    fuel: nat,
)
    requires
        fueled(tokens, state, fuel, 21),
    ensures
        ({
            let program = grammar::program(tokens, read, complete, state, fuel);
            &&& program.diagnostics.len() >= state.diagnostics.len()
            &&& program.complete ==> complete
            &&& complete ==> (program.complete <==> program.diagnostics.len()
                == state.diagnostics.len())
        }),
    decreases fuel,
{
    if fuel > 0 && grammar::kind_at(tokens, state.pos) != TokenKind::Eof {
        let rest = (fuel - 1) as nat;
        lemma_goes_forward(tokens, rest);
        let next = grammar::statement(tokens, state, false, rest);
        assert(moving(state, next));
        let clean = complete && next.state.diagnostics.len() == state.diagnostics.len();
        match next.value {
            Some(value) => lemma_program_goes_forward(
                tokens,
                if clean {
                    read.push(value)
                } else {
                    read
                },
                clean,
                next.state,
                rest,
            ),
            None => {
                let resumed = grammar::recovered(tokens, state.pos, next.state.pos);
                lemma_synchronized_goes_forward(tokens, next.state.pos);
                lemma_synchronized_goes_forward(tokens, state.pos + 1);
                lemma_program_goes_forward(
                    tokens,
                    read,
                    false,
                    ParserState { pos: resumed, ..next.state },
                    rest,
                );
            },
        }
    }
}

/// A parse is complete if and only if it has reported no error: the parser
/// never fails in silence, the fuel that it reads with never runs out, and
/// whatever it reports is a failure.
pub proof fn lemma_failure_is_reported(tokens: Seq<TokenView>)
    ensures
        grammar::parse(tokens).complete <==> grammar::parse(tokens).diagnostics.len() == 0,
{
    lemma_program_goes_forward(
        tokens,
        Seq::empty(),
        true,
        ParserState { pos: 0, diagnostics: Seq::empty() },
        grammar::fuel_for(tokens),
    );
}

} // verus!
