//! The grammar: which statements a sequence of tokens spells, and which
//! errors it holds.
//!
//! ```text
//! program     → statement*
//! statement   → exprStmt | printStmt | varDecl | block | ifStmt | whileStmt
//!             | forStmt | funDecl | returnStmt | breakStmt
//! exprStmt    → assignment ";"
//! printStmt   → "print" assignment ";"
//! varDecl     → "var" IDENT ( "=" assignment )? ";"
//! block       → "{" statement* "}"
//! ifStmt      → "if" "(" assignment ")" statement ( "else" statement )?
//! whileStmt   → "while" "(" assignment ")" statement
//! forStmt     → "for" "(" ( varDecl | exprStmt | ";" ) assignment? ";" assignment? ")" statement
//! funDecl     → "fun" IDENT? "(" params? ")" block
//! params      → IDENT ( "," IDENT )*
//! returnStmt  → "return" assignment ";"
//! breakStmt   → "break" ";"
//! assignment  → logic_or ( ( "=" | "+=" | "-=" | "*=" ) assignment )?
//! logic_or    → logic_and ( "or" logic_and )*
//! logic_and   → equality ( "and" equality )*
//! equality    → comparison ( ( "!=" | "==" ) comparison )*
//! comparison  → term ( ( ">" | ">=" | "<" | "<=" ) term )*
//! term        → factor ( ( "-" | "+" ) factor )*
//! factor      → unary ( ( "/" | "*" ) unary )*
//! unary       → ( "!" | "-" ) unary | call
//! call        → primary ( "(" arguments? ")" )*
//! arguments   → statement ( "," statement )*
//! primary     → NUMBER | STRING | "true" | "false" | "nil" | IDENT | "(" assignment ")"
//! ```
//!
//! An argument of a call is a statement read in a mode in which an
//! expression needs no `;` after it.
//!
//! Every function below takes `fuel`, a bound on the depth of the derivation
//! that it may build. A function that runs out of fuel fails without a
//! diagnostic; `fuel_for` is enough for every sequence of tokens, so that a
//! parse fails if and only if it reports an error
//! (`progress::lemma_failure_is_reported`).
//!
//! After a statement that fails, the parser looks for the next statement
//! boundary and goes on from there, to report what else is wrong.
use vstd::prelude::*;
use crate::error::{DiagnosticView, ErrorType};
use crate::expressions::{ExprView, Value};
use crate::statements::StmtView;
use crate::tokens::{TokenKind, TokenView};

verus! {

/// Where the parser stands, and what it has reported.
pub struct ParserState {
    pub pos: nat,
    pub diagnostics: Seq<DiagnosticView>,
}

/// The outcome of reading one construct: what was read, or `None` when the
/// tokens do not spell it, and the state after it.
pub struct Parsed<T> {
    pub value: Option<T>,
    pub state: ParserState,
}

/// The levels of left-associative operators, from the loosest to the
/// tightest.
#[derive(Clone, Copy, Debug, PartialEq, Eq, Structural)]
pub enum Level {
    Or,
    And,
    Equality,
    Comparison,
    Term,
    Factor,
}

impl Level {
    /// Whether a token of this kind is an operator of the level.
    pub open spec fn has(self, kind: TokenKind) -> bool {
        match self {
            Level::Or => kind == TokenKind::Or,
            Level::And => kind == TokenKind::And,
            Level::Equality => kind == TokenKind::BangEqual || kind == TokenKind::EqualEqual,
            Level::Comparison => kind == TokenKind::Greater || kind == TokenKind::GreaterEqual
                || kind == TokenKind::Less || kind == TokenKind::LessEqual,
            Level::Term => kind == TokenKind::Minus || kind == TokenKind::Plus,
            Level::Factor => kind == TokenKind::Slash || kind == TokenKind::Star,
        }
    }

    /// The expression that an operator of the level makes of its operands.
    pub open spec fn join(self, left: ExprView, operator: TokenView, right: ExprView) -> ExprView {
        match self {
            Level::Or | Level::And => ExprView::Logical {
                left: Box::new(left),
                operator,
                right: Box::new(right),
            },
            _ => ExprView::Binary { left: Box::new(left), operator, right: Box::new(right) },
        }
    }
}

/// The kind of the token at `pos`; `Eof` beyond the end.
pub open spec fn kind_at(tokens: Seq<TokenView>, pos: nat) -> TokenKind {
    if pos < tokens.len() {
        tokens[pos as int].kind
    } else {
        TokenKind::Eof
    }
}

/// The token at `pos`; an `Eof` at line 0 beyond the end.
pub open spec fn token_at(tokens: Seq<TokenView>, pos: nat) -> TokenView {
    if pos < tokens.len() {
        tokens[pos as int]
    } else {
        TokenView { kind: TokenKind::Eof, text: Seq::empty(), line: 0, column: 0 }
    }
}

/// The token before `pos`, or the first one when `pos` is 0.
pub open spec fn previous_at(tokens: Seq<TokenView>, pos: nat) -> TokenView {
    if pos > 0 {
        token_at(tokens, (pos - 1) as nat)
    } else {
        token_at(tokens, 0)
    }
}

impl ParserState {
    /// The state after one more token.
    pub open spec fn advance(self) -> ParserState {
        ParserState { pos: self.pos + 1, ..self }
    }

    /// The state after a parser error was reported at the place of `at`.
    pub open spec fn report(self, at: TokenView, message: Seq<char>) -> ParserState {
        ParserState {
            diagnostics: self.diagnostics.push(
                DiagnosticView {
                    kind: ErrorType::ParserError,
                    line: at.line,
                    column: at.column,
                    message,
                },
            ),
            ..self
        }
    }
}

/// An outcome.
pub open spec fn parsed<T>(value: Option<T>, state: ParserState) -> Parsed<T> {
    Parsed { value, state }
}

/// The construct was read.
pub open spec fn done<T>(value: T, state: ParserState) -> Parsed<T> {
    Parsed { value: Some(value), state }
}

/// The tokens do not spell the construct.
pub open spec fn failed<T>(state: ParserState) -> Parsed<T> {
    Parsed { value: None, state }
}

/// The tokens do not spell the construct: `message` is reported at `at`.
pub open spec fn refused<T>(state: ParserState, at: TokenView, message: Seq<char>) -> Parsed<T> {
    Parsed { value: None, state: state.report(at, message) }
}

/// Reads the `;` that ends a statement; where there is none, the error is
/// reported at the token before.
pub open spec fn semicolon(
    tokens: Seq<TokenView>,
    state: ParserState,
    message: Seq<char>,
) -> Parsed<()> {
    if kind_at(tokens, state.pos) == TokenKind::Semicolon {
        done((), state.advance())
    } else {
        refused(state, previous_at(tokens, state.pos), message)
    }
}

/// A literal expression.
pub open spec fn literal(value: Value) -> ExprView {
    ExprView::Literal { value }
}

pub open spec fn primary(tokens: Seq<TokenView>, state: ParserState, fuel: nat) -> Parsed<ExprView>
    decreases fuel,
{
    let token = token_at(tokens, state.pos);
    if fuel == 0 {
        failed(state)
    } else {
        match token.kind {
            TokenKind::Number => done(ExprView::Number { digits: token.text }, state.advance()),
            TokenKind::String => done(literal(Value::String(token.text)), state.advance()),
            TokenKind::True => done(literal(Value::Boolean(true)), state.advance()),
            TokenKind::False => done(literal(Value::Boolean(false)), state.advance()),
            TokenKind::Nil => done(literal(Value::Nil), state.advance()),
            TokenKind::Identifier => done(ExprView::Variable { name: token }, state.advance()),
            TokenKind::LeftParen => {
                let inner = assignment(tokens, state.advance(), (fuel - 1) as nat);
                match inner.value {
                    None => failed(inner.state),
                    Some(expression) => if kind_at(tokens, inner.state.pos)
                        == TokenKind::RightParen {
                        done(
                            ExprView::Grouping { expression: Box::new(expression) },
                            inner.state.advance(),
                        )
                    } else {
                        refused(
                            inner.state,
                            token_at(tokens, inner.state.pos),
                            "Expected ')' after expression."@,
                        )
                    },
                }
            },
            _ => refused(state, token, "Expected expression."@),
        }
    }
}

/// The arguments of a call from `state` on, after those in `read`, up to the
/// `)` that closes them, which is left unread. A list may be empty; after a
/// comma an argument must follow.
pub open spec fn arguments(
    tokens: Seq<TokenView>,
    read: Seq<StmtView>,
    state: ParserState,
    fuel: nat,
) -> Parsed<Seq<StmtView>>
    decreases fuel,
{
    let token = token_at(tokens, state.pos);
    if fuel == 0 {
        failed(state)
    } else if read.len() == 0 && (token.kind == TokenKind::Eof || token.kind
        == TokenKind::RightParen) {
        done(read, state)
    } else {
        let counted = if read.len() >= 255 {
            state.report(token, "Can not have more than 255 arguments."@)
        } else {
            state
        };
        let argument = statement(tokens, counted, true, (fuel - 1) as nat);
        match argument.value {
            None => failed(argument.state),
            Some(value) => {
                let next = token_at(tokens, argument.state.pos);
                if next.kind == TokenKind::RightParen {
                    done(read.push(value), argument.state)
                } else if next.kind == TokenKind::Comma {
                    arguments(tokens, read.push(value), argument.state.advance(), (fuel - 1) as nat)
                } else {
                    refused(argument.state, next, "Expected ')' or ',' after argument."@)
                }
            },
        }
    }
}

/// The calls that follow a callee: each `(`, its arguments and its `)`.
pub open spec fn calls(
    tokens: Seq<TokenView>,
    callee: ExprView,
    state: ParserState,
    fuel: nat,
) -> Parsed<ExprView>
    decreases fuel,
{
    let open = token_at(tokens, state.pos);
    if fuel == 0 {
        failed(state)
    } else if open.kind != TokenKind::LeftParen {
        done(callee, state)
    } else {
        let list = arguments(tokens, Seq::empty(), state.advance(), (fuel - 1) as nat);
        match list.value {
            None => failed(list.state),
            Some(values) => {
                let close = token_at(tokens, list.state.pos);
                if close.kind == TokenKind::RightParen {
                    calls(
                        tokens,
                        ExprView::Call {
                            callee: Box::new(callee),
                            paren: close,
                            arguments: values,
                        },
                        list.state.advance(),
                        (fuel - 1) as nat,
                    )
                } else {
                    refused(list.state, open, "Expected ')' after arguments."@)
                }
            },
        }
    }
}

pub open spec fn call(tokens: Seq<TokenView>, state: ParserState, fuel: nat) -> Parsed<ExprView>
    decreases fuel,
{
    if fuel == 0 {
        failed(state)
    } else {
        let callee = primary(tokens, state, (fuel - 1) as nat);
        match callee.value {
            None => failed(callee.state),
            Some(value) => calls(tokens, value, callee.state, (fuel - 1) as nat),
        }
    }
}

pub open spec fn unary(tokens: Seq<TokenView>, state: ParserState, fuel: nat) -> Parsed<ExprView>
    decreases fuel,
{
    let operator = token_at(tokens, state.pos);
    if fuel == 0 {
        failed(state)
    } else if operator.kind == TokenKind::Bang || operator.kind == TokenKind::Minus {
        let operand = unary(tokens, state.advance(), (fuel - 1) as nat);
        match operand.value {
            None => failed(operand.state),
            Some(right) => done(
                ExprView::Unary { operator, right: Box::new(right) },
                operand.state,
            ),
        }
    } else {
        call(tokens, state, (fuel - 1) as nat)
    }
}

/// An operand of an operator of `level`: an expression of the next tighter
/// level.
pub open spec fn operand(
    tokens: Seq<TokenView>,
    state: ParserState,
    level: Level,
    fuel: nat,
) -> Parsed<ExprView>
    decreases fuel,
{
    if fuel == 0 {
        failed(state)
    } else {
        match level {
            Level::Or => binary(tokens, state, Level::And, (fuel - 1) as nat),
            Level::And => binary(tokens, state, Level::Equality, (fuel - 1) as nat),
            Level::Equality => binary(tokens, state, Level::Comparison, (fuel - 1) as nat),
            Level::Comparison => binary(tokens, state, Level::Term, (fuel - 1) as nat),
            Level::Term => binary(tokens, state, Level::Factor, (fuel - 1) as nat),
            Level::Factor => unary(tokens, state, (fuel - 1) as nat),
        }
    }
}

/// The operators of `level` that follow `left`, each with its right operand,
/// joined to the left.
pub open spec fn operations(
    tokens: Seq<TokenView>,
    left: ExprView,
    state: ParserState,
    level: Level,
    fuel: nat,
) -> Parsed<ExprView>
    decreases fuel,
{
    let operator = token_at(tokens, state.pos);
    if fuel == 0 {
        failed(state)
    } else if !level.has(operator.kind) {
        done(left, state)
    } else {
        let right = operand(tokens, state.advance(), level, (fuel - 1) as nat);
        match right.value {
            None => failed(right.state),
            Some(value) => operations(
                tokens,
                level.join(left, operator, value),
                right.state,
                level,
                (fuel - 1) as nat,
            ),
        }
    }
}

/// An expression of `level`: operands joined by operators of the level,
/// from the left.
pub open spec fn binary(
    tokens: Seq<TokenView>,
    state: ParserState,
    level: Level,
    fuel: nat,
) -> Parsed<ExprView>
    decreases fuel,
{
    if fuel == 0 {
        failed(state)
    } else {
        let left = operand(tokens, state, level, (fuel - 1) as nat);
        match left.value {
            None => failed(left.state),
            Some(value) => operations(tokens, value, left.state, level, (fuel - 1) as nat),
        }
    }
}

/// The operator that a compound assignment stands for, if the kind is one.
pub open spec fn compound(kind: TokenKind) -> Option<TokenKind> {
    match kind {
        TokenKind::PlusEqual => Some(TokenKind::Plus),
        TokenKind::MinusEqual => Some(TokenKind::Minus),
        TokenKind::StarEqual => Some(TokenKind::Star),
        _ => None,
    }
}

/// What is assigned to `name` by the operator `sign` and the value to its
/// right: the value, or for a compound assignment the operation on the
/// variable and the value.
pub open spec fn assigned(name: TokenView, sign: TokenView, value: ExprView) -> ExprView {
    match compound(sign.kind) {
        Some(kind) => ExprView::Binary {
            left: Box::new(ExprView::Variable { name }),
            operator: TokenView { kind, text: Seq::empty(), line: sign.line, column: sign.column },
            right: Box::new(value),
        },
        None => value,
    }
}

pub open spec fn assignment(
    tokens: Seq<TokenView>,
    state: ParserState,
    fuel: nat,
) -> Parsed<ExprView>
    decreases fuel,
{
    if fuel == 0 {
        failed(state)
    } else {
        let target = binary(tokens, state, Level::Or, (fuel - 1) as nat);
        let sign = token_at(tokens, target.state.pos);
        match target.value {
            Some(ExprView::Variable { name }) => if sign.kind == TokenKind::Equal || compound(
                sign.kind,
            ) is Some {
                let source = assignment(tokens, target.state.advance(), (fuel - 1) as nat);
                match source.value {
                    None => failed(source.state),
                    Some(value) => done(
                        ExprView::Assign { name, value: Box::new(assigned(name, sign, value)) },
                        source.state,
                    ),
                }
            } else {
                target
            },
            _ => target,
        }
    }
}

/// The statements of a block from `state` on, after those in `read`, up to
/// the `}` that closes the block or the end of the tokens.
pub open spec fn block(
    tokens: Seq<TokenView>,
    read: Seq<StmtView>,
    state: ParserState,
    fuel: nat,
) -> Parsed<Seq<StmtView>>
    decreases fuel,
{
    let kind = kind_at(tokens, state.pos);
    if fuel == 0 {
        failed(state)
    } else if kind == TokenKind::Eof || kind == TokenKind::RightBrace {
        done(read, state)
    } else {
        let inner = statement(tokens, state, false, (fuel - 1) as nat);
        match inner.value {
            None => failed(inner.state),
            Some(value) => block(tokens, read.push(value), inner.state, (fuel - 1) as nat),
        }
    }
}

/// The parameters of a function from `state` on, after those in `read`, and
/// the `)` that closes them. A list may be empty; after a comma a name must
/// follow.
pub open spec fn parameters(
    tokens: Seq<TokenView>,
    read: Seq<Seq<char>>,
    state: ParserState,
    fuel: nat,
) -> Parsed<Seq<Seq<char>>>
    decreases fuel,
{
    let token = token_at(tokens, state.pos);
    if fuel == 0 {
        failed(state)
    } else if token.kind == TokenKind::Eof {
        refused(state, token, "Expected ')' after parameters."@)
    } else if read.len() == 0 && token.kind == TokenKind::RightParen {
        done(read, state.advance())
    } else if token.kind != TokenKind::Identifier {
        refused(state, token, "Expected identifier."@)
    } else {
        let counted = if read.len() >= 255 {
            state.report(token, "Can not have more than 255 parameters."@)
        } else {
            state
        };
        let named = counted.advance();
        let names = read.push(token.text);
        let next = token_at(tokens, named.pos);
        if next.kind == TokenKind::RightParen {
            done(names, named.advance())
        } else if next.kind == TokenKind::Comma {
            parameters(tokens, names, named.advance(), (fuel - 1) as nat)
        } else {
            refused(named, next, "Expected ')' or ',' after parameter."@)
        }
    }
}

/// What a `for` loop stands for: its body and its increment in a block, in a
/// `while` loop on its condition, in a block after its initializer.
pub open spec fn lowered(
    initializer: Option<StmtView>,
    condition: ExprView,
    increment: Option<ExprView>,
    body: StmtView,
) -> StmtView {
    let repeated = match increment {
        Some(expr) => StmtView::Block { statements: seq![body, StmtView::Expression { expr }] },
        None => body,
    };
    let looped = StmtView::While { condition, body: Box::new(repeated) };
    match initializer {
        Some(first) => StmtView::Block { statements: seq![first, looped] },
        None => looped,
    }
}

/// The condition of a `while` or an `if` in its parentheses, after the
/// keyword `word`, which was just read.
pub open spec fn condition(
    tokens: Seq<TokenView>,
    state: ParserState,
    word: Seq<char>,
    fuel: nat,
) -> Parsed<ExprView>
    decreases fuel,
{
    if fuel == 0 {
        failed(state)
    } else if kind_at(tokens, state.pos) != TokenKind::LeftParen {
        refused(state, previous_at(tokens, state.pos), "Expected '(' after '"@ + word + "'."@)
    } else {
        let inner = assignment(tokens, state.advance(), (fuel - 1) as nat);
        match inner.value {
            None => failed(inner.state),
            Some(value) => if kind_at(tokens, inner.state.pos) == TokenKind::RightParen {
                done(value, inner.state.advance())
            } else {
                refused(
                    inner.state,
                    token_at(tokens, inner.state.pos),
                    "Expected ')' after condition."@,
                )
            },
        }
    }
}

/// An expression and the `;` after it.
pub open spec fn terminated(
    tokens: Seq<TokenView>,
    state: ParserState,
    message: Seq<char>,
    fuel: nat,
) -> Parsed<ExprView>
    decreases fuel,
{
    if fuel == 0 {
        failed(state)
    } else {
        let inner = assignment(tokens, state, (fuel - 1) as nat);
        match inner.value {
            None => failed(inner.state),
            Some(value) => {
                let end = semicolon(tokens, inner.state, message);
                match end.value {
                    None => failed(end.state),
                    Some(_) => done(value, end.state),
                }
            },
        }
    }
}

/// The first clause of a `for` loop: a declaration or an expression
/// statement, or `;` alone.
pub open spec fn for_initializer(
    tokens: Seq<TokenView>,
    state: ParserState,
    fuel: nat,
) -> Parsed<Option<StmtView>>
    decreases fuel,
{
    let kind = kind_at(tokens, state.pos);
    if fuel == 0 {
        failed(state)
    } else if kind == TokenKind::Semicolon {
        done(None, state.advance())
    } else {
        let inner = if kind == TokenKind::Var {
            statement(tokens, state, false, (fuel - 1) as nat)
        } else {
            expression_statement(tokens, state, false, (fuel - 1) as nat)
        };
        match inner.value {
            None => failed(inner.state),
            Some(value) => done(Some(value), inner.state),
        }
    }
}

/// The second clause of a `for` loop: a condition and its `;`, or `;`
/// alone, which stands for `true`.
pub open spec fn for_condition(
    tokens: Seq<TokenView>,
    state: ParserState,
    fuel: nat,
) -> Parsed<ExprView>
    decreases fuel,
{
    if fuel == 0 {
        failed(state)
    } else if kind_at(tokens, state.pos) == TokenKind::Semicolon {
        done(literal(Value::Boolean(true)), state.advance())
    } else {
        terminated(tokens, state, "Expected ';' after expression."@, (fuel - 1) as nat)
    }
}

/// The third clause of a `for` loop: an expression, or nothing before the
/// `)`.
pub open spec fn for_increment(
    tokens: Seq<TokenView>,
    state: ParserState,
    fuel: nat,
) -> Parsed<Option<ExprView>>
    decreases fuel,
{
    if fuel == 0 {
        failed(state)
    } else if kind_at(tokens, state.pos) == TokenKind::RightParen {
        done(None, state)
    } else {
        let inner = assignment(tokens, state, (fuel - 1) as nat);
        match inner.value {
            None => failed(inner.state),
            Some(value) => done(Some(value), inner.state),
        }
    }
}

/// The three clauses of a `for` loop and the `)` after them.
pub open spec fn for_clauses(tokens: Seq<TokenView>, state: ParserState, fuel: nat) -> Parsed<
    (Option<StmtView>, ExprView, Option<ExprView>),
>
    decreases fuel,
{
    if fuel == 0 {
        failed(state)
    } else {
        let first = for_initializer(tokens, state, (fuel - 1) as nat);
        let second = for_condition(tokens, first.state, (fuel - 1) as nat);
        let third = for_increment(tokens, second.state, (fuel - 1) as nat);
        if first.value is None {
            failed(first.state)
        } else if second.value is None {
            failed(second.state)
        } else if third.value is None {
            failed(third.state)
        } else if kind_at(tokens, third.state.pos) != TokenKind::RightParen {
            refused(
                third.state,
                token_at(tokens, third.state.pos),
                "Expected ')' after loop increment."@,
            )
        } else {
            done(
                (first.value.unwrap(), second.value.unwrap(), third.value.unwrap()),
                third.state.advance(),
            )
        }
    }
}

/// The rest of a `for` loop after its `(`.
pub open spec fn for_loop(tokens: Seq<TokenView>, state: ParserState, fuel: nat) -> Parsed<StmtView>
    decreases fuel,
{
    if fuel == 0 {
        failed(state)
    } else {
        let clauses = for_clauses(tokens, state, (fuel - 1) as nat);
        match clauses.value {
            None => failed(clauses.state),
            Some((initializer, test, increment)) => {
                let body = statement(tokens, clauses.state, false, (fuel - 1) as nat);
                match body.value {
                    None => failed(body.state),
                    Some(value) => done(lowered(initializer, test, increment, value), body.state),
                }
            },
        }
    }
}

/// The rest of a function declaration after `fun`.
pub open spec fn function(tokens: Seq<TokenView>, state: ParserState, fuel: nat) -> Parsed<StmtView>
    decreases fuel,
{
    let first = token_at(tokens, state.pos);
    let name = if first.kind == TokenKind::Identifier {
        Some(first.text)
    } else {
        None
    };
    let named = if first.kind == TokenKind::Identifier {
        state.advance()
    } else {
        state
    };
    if fuel == 0 {
        failed(state)
    } else if kind_at(tokens, named.pos) != TokenKind::LeftParen {
        refused(named, previous_at(tokens, named.pos), "Expected '(' after function name."@)
    } else {
        let list = parameters(tokens, Seq::empty(), named.advance(), (fuel - 1) as nat);
        match list.value {
            None => failed(list.state),
            Some(params) => if kind_at(tokens, list.state.pos) != TokenKind::LeftBrace {
                refused(
                    list.state,
                    token_at(tokens, list.state.pos),
                    "Expected block after function declaration."@,
                )
            } else {
                let inner = braces(tokens, list.state.advance(), (fuel - 1) as nat);
                match inner.value {
                    None => failed(inner.state),
                    Some(body) => done(StmtView::Function { name, params, body }, inner.state),
                }
            },
        }
    }
}

/// The statements of a block after its `{`, and its `}`.
pub open spec fn braces(
    tokens: Seq<TokenView>,
    state: ParserState,
    fuel: nat,
) -> Parsed<Seq<StmtView>>
    decreases fuel,
{
    if fuel == 0 {
        failed(state)
    } else {
        let inner = block(tokens, Seq::empty(), state, (fuel - 1) as nat);
        match inner.value {
            None => failed(inner.state),
            Some(statements) => if kind_at(tokens, inner.state.pos) == TokenKind::RightBrace {
                done(statements, inner.state.advance())
            } else {
                refused(
                    inner.state,
                    token_at(tokens, inner.state.pos),
                    "Expected '}' after block."@,
                )
            },
        }
    }
}

/// The rest of a conditional after `if`.
pub open spec fn conditional(
    tokens: Seq<TokenView>,
    state: ParserState,
    fuel: nat,
) -> Parsed<StmtView>
    decreases fuel,
{
    if fuel == 0 {
        failed(state)
    } else {
        let test = condition(tokens, state, "if"@, (fuel - 1) as nat);
        match test.value {
            None => failed(test.state),
            Some(value) => {
                let first = statement(tokens, test.state, false, (fuel - 1) as nat);
                match first.value {
                    None => failed(first.state),
                    Some(then_branch) => if kind_at(tokens, first.state.pos) == TokenKind::Else {
                        let second = statement(
                            tokens,
                            first.state.advance(),
                            false,
                            (fuel - 1) as nat,
                        );
                        match second.value {
                            None => failed(second.state),
                            Some(else_branch) => done(
                                StmtView::Conditional {
                                    condition: value,
                                    then_branch: Box::new(then_branch),
                                    else_branch: Some(Box::new(else_branch)),
                                },
                                second.state,
                            ),
                        }
                    } else {
                        done(
                            StmtView::Conditional {
                                condition: value,
                                then_branch: Box::new(then_branch),
                                else_branch: None,
                            },
                            first.state,
                        )
                    },
                }
            },
        }
    }
}

/// The rest of a loop after `while`.
pub open spec fn while_loop(
    tokens: Seq<TokenView>,
    state: ParserState,
    fuel: nat,
) -> Parsed<StmtView>
    decreases fuel,
{
    if fuel == 0 {
        failed(state)
    } else {
        let test = condition(tokens, state, "while"@, (fuel - 1) as nat);
        match test.value {
            None => failed(test.state),
            Some(value) => {
                let inner = statement(tokens, test.state, false, (fuel - 1) as nat);
                match inner.value {
                    None => failed(inner.state),
                    Some(body) => done(
                        StmtView::While { condition: value, body: Box::new(body) },
                        inner.state,
                    ),
                }
            },
        }
    }
}

/// The rest of a declaration after `var`.
pub open spec fn variable(tokens: Seq<TokenView>, state: ParserState, fuel: nat) -> Parsed<StmtView>
    decreases fuel,
{
    let name = token_at(tokens, state.pos);
    if fuel == 0 {
        failed(state)
    } else if name.kind != TokenKind::Identifier {
        refused(state, name, "Expected identifier."@)
    } else {
        let initial = initializer(tokens, state.advance(), (fuel - 1) as nat);
        match initial.value {
            None => failed(initial.state),
            Some(expr) => done(StmtView::Var { name: name.text, expr }, initial.state),
        }
    }
}

/// What a declared variable starts with, and the `;` that ends the
/// declaration: the expression after `=`, or `nil` without one.
pub open spec fn initializer(
    tokens: Seq<TokenView>,
    state: ParserState,
    fuel: nat,
) -> Parsed<ExprView>
    decreases fuel,
{
    if fuel == 0 {
        failed(state)
    } else if kind_at(tokens, state.pos) == TokenKind::Equal {
        terminated(tokens, state.advance(), "Expected ';' after expression."@, (fuel - 1) as nat)
    } else {
        let end = semicolon(tokens, state, "Expected ';' after expression."@);
        match end.value {
            None => failed(end.state),
            Some(_) => done(literal(Value::Nil), end.state),
        }
    }
}

/// An expression as a statement: with the `;` after it, or, as an argument
/// of a call (`in_call`), without.
pub open spec fn expression_statement(
    tokens: Seq<TokenView>,
    state: ParserState,
    in_call: bool,
    fuel: nat,
) -> Parsed<StmtView>
    decreases fuel,
{
    if fuel == 0 {
        failed(state)
    } else {
        let value = if in_call {
            assignment(tokens, state, (fuel - 1) as nat)
        } else {
            terminated(tokens, state, "Expect ';' after expression."@, (fuel - 1) as nat)
        };
        match value.value {
            None => failed(value.state),
            Some(expr) => done(StmtView::Expression { expr }, value.state),
        }
    }
}

/// One statement. As an argument of a call (`in_call`), an expression needs
/// no `;` after it.
pub open spec fn statement(
    tokens: Seq<TokenView>,
    state: ParserState,
    in_call: bool,
    fuel: nat,
) -> Parsed<StmtView>
    decreases fuel,
{
    let first = token_at(tokens, state.pos);
    let after = state.advance();
    let rest = (fuel - 1) as nat;
    if fuel == 0 {
        failed(state)
    } else {
        match first.kind {
            TokenKind::Print => {
                let value = terminated(tokens, after, "Expected ';' after statement."@, rest);
                match value.value {
                    None => failed(value.state),
                    Some(expr) => done(StmtView::Print { expr }, value.state),
                }
            },
            TokenKind::Return => {
                let value = terminated(tokens, after, "Expected ';' after return value."@, rest);
                match value.value {
                    None => failed(value.state),
                    Some(expr) => done(StmtView::Return { expr }, value.state),
                }
            },
            TokenKind::Break => {
                let end = semicolon(tokens, after, "Expected ';' after statement."@);
                match end.value {
                    None => failed(end.state),
                    Some(_) => done(
                        StmtView::Break { line: first.line, column: first.column },
                        end.state,
                    ),
                }
            },
            TokenKind::Var => variable(tokens, after, rest),
            TokenKind::LeftBrace => {
                let inner = braces(tokens, after, rest);
                match inner.value {
                    None => failed(inner.state),
                    Some(statements) => done(StmtView::Block { statements }, inner.state),
                }
            },
            TokenKind::If => conditional(tokens, after, rest),
            TokenKind::While => while_loop(tokens, after, rest),
            TokenKind::For => if kind_at(tokens, after.pos) == TokenKind::LeftParen {
                for_loop(tokens, after.advance(), rest)
            } else {
                refused(after, first, "Expected '(' after 'for'."@)
            },
            TokenKind::Fun => function(tokens, after, rest),
            _ => expression_statement(tokens, state, in_call, rest),
        }
    }
}

/// Whether a statement may start with a token of this kind: where the
/// parser takes up its work again after an error.
pub open spec fn starts_statement(kind: TokenKind) -> bool {
    kind == TokenKind::Class || kind == TokenKind::Fun || kind == TokenKind::Var || kind
        == TokenKind::For || kind == TokenKind::If || kind == TokenKind::While || kind
        == TokenKind::Print || kind == TokenKind::Return
}

/// Where the parser takes up its work again when it looks for a statement
/// boundary from `pos` on: after the next `;`, before the next token that
/// starts a statement, or at the end.
pub open spec fn synchronized(tokens: Seq<TokenView>, pos: nat) -> nat
    decreases tokens.len() - pos,
{
    if pos >= tokens.len() || tokens[pos as int].kind == TokenKind::Eof || starts_statement(
        tokens[pos as int].kind,
    ) {
        pos
    } else if tokens[pos as int].kind == TokenKind::Semicolon {
        pos + 1
    } else {
        synchronized(tokens, pos + 1)
    }
}

/// Where the parser takes up its work again after a statement that started
/// at `start` failed at `stop`: at a statement boundary found after at least
/// one token beyond `start`.
pub open spec fn recovered(tokens: Seq<TokenView>, start: nat, stop: nat) -> nat {
    if stop > start {
        synchronized(tokens, stop)
    } else if kind_at(tokens, start) == TokenKind::Eof {
        start
    } else {
        synchronized(tokens, start + 1)
    }
}

/// The outcome of parsing a program: the statements read before the first
/// one in which an error was reported, whether there was none, and every
/// diagnostic.
pub struct Program {
    pub statements: Seq<StmtView>,
    pub complete: bool,
    pub diagnostics: Seq<DiagnosticView>,
}

/// The program that the tokens spell from `state` on, after the statements
/// in `read`. After a statement that fails, the parser looks for the next
/// statement boundary and goes on, to report what else is wrong. It keeps no
/// statement from the first one on in which an error was reported, be it
/// that the statement failed or that it holds more than the parser allows.
pub open spec fn program(
    tokens: Seq<TokenView>,
    read: Seq<StmtView>,
    complete: bool,
    state: ParserState,
    fuel: nat,
) -> Program
    decreases fuel,
{
    if fuel == 0 || kind_at(tokens, state.pos) == TokenKind::Eof {
        Program { statements: read, complete, diagnostics: state.diagnostics }
    } else {
        let next = statement(tokens, state, false, (fuel - 1) as nat);
        let clean = complete && next.state.diagnostics.len() == state.diagnostics.len();
        match next.value {
            Some(value) => program(
                tokens,
                if clean { read.push(value) } else { read },
                clean,
                next.state,
                (fuel - 1) as nat,
            ),
            None => program(
                tokens,
                read,
                false,
                ParserState { pos: recovered(tokens, state.pos, next.state.pos), ..next.state },
                (fuel - 1) as nat,
            ),
        }
    }
}

/// Fuel enough to read a construct of rank `rank` when `left` tokens are
/// left. A construct has a higher rank than those that it may start with.
pub open spec fn enough(left: nat, rank: nat) -> nat {
    left * 32 + rank
}

impl Level {
    /// The rank of an expression of the level; its operands have the rank
    /// below.
    pub open spec fn rank(self) -> nat {
        match self {
            Level::Or => 16,
            Level::And => 14,
            Level::Equality => 12,
            Level::Comparison => 10,
            Level::Term => 8,
            Level::Factor => 6,
        }
    }
}

/// Fuel enough for every sequence of tokens of this length.
pub open spec fn fuel_for(tokens: Seq<TokenView>) -> nat {
    enough(tokens.len(), 31)
}

/// The program that the tokens spell.
pub open spec fn parse(tokens: Seq<TokenView>) -> Program {
    program(
        tokens,
        Seq::empty(),
        true,
        ParserState { pos: 0, diagnostics: Seq::empty() },
        fuel_for(tokens),
    )
}

} // verus!
