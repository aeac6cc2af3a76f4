//! The parser: from tokens to statement trees, by recursive descent.
use vstd::prelude::*;
use vstd::string::*;
use crate::error::{diagnostic_views, string_views, Diagnostic, DiagnosticView, ErrorType};
use crate::expressions::{Expr, ExprView, Literal};
use crate::grammar;
use crate::grammar::{parsed, Level, ParserState};
use crate::progress::{fueled, left};
use crate::statements::{lemma_view_of_statements, view_of_statements, Stmt, StmtView};
use crate::tokens::{token_views, Token, TokenKind, TokenView};

verus! {

/// The content of what a function of the parser returns for an expression.
pub open spec fn expr_read(result: Result<Expr, ()>) -> Option<ExprView> {
    match result {
        Ok(expr) => Some(expr.view()),
        Err(_) => None,
    }
}

/// The content of what a function of the parser returns for a statement.
pub open spec fn stmt_read(result: Result<Stmt, ()>) -> Option<StmtView> {
    match result {
        Ok(stmt) => Some(stmt.view()),
        Err(_) => None,
    }
}

/// The content of what a function of the parser returns for a statement
/// that may be left out.
pub open spec fn clause_read(result: Result<Option<Stmt>, ()>) -> Option<Option<StmtView>> {
    match result {
        Ok(Some(stmt)) => Some(Some(stmt.view())),
        Ok(None) => Some(None),
        Err(_) => None,
    }
}

/// The content of what a function of the parser returns for an expression
/// that may be left out.
pub open spec fn increment_read(result: Result<Option<Expr>, ()>) -> Option<Option<ExprView>> {
    match result {
        Ok(Some(expr)) => Some(Some(expr.view())),
        Ok(None) => Some(None),
        Err(_) => None,
    }
}

/// The content of what a function of the parser returns for the clauses of
/// a `for` loop.
pub open spec fn clauses_read(result: Result<(Option<Stmt>, Expr, Option<Expr>), ()>) -> Option<
    (Option<StmtView>, ExprView, Option<ExprView>),
> {
    match result {
        Ok((first, second, third)) => Some(
            (
                match first {
                    Some(stmt) => Some(stmt.view()),
                    None => None,
                },
                second.view(),
                match third {
                    Some(expr) => Some(expr.view()),
                    None => None,
                },
            ),
        ),
        Err(_) => None,
    }
}

/// The content of what a function of the parser returns for a list of
/// statements.
pub open spec fn stmts_read(result: Result<Vec<Stmt>, ()>) -> Option<Seq<StmtView>> {
    match result {
        Ok(stmts) => Some(view_of_statements(stmts@)),
        Err(_) => None,
    }
}

impl Level {
    /// Whether a token of this kind is an operator of the level.
    pub fn holds(self, kind: TokenKind) -> (held: bool)
        ensures
            held == self.has(kind),
    {
        match self {
            Level::Or => kind == TokenKind::Or,
            Level::And => kind == TokenKind::And,
            Level::Equality => kind == TokenKind::BangEqual || kind == TokenKind::EqualEqual,
            Level::Comparison => kind == TokenKind::Greater || kind == TokenKind::GreaterEqual
                || kind == TokenKind::Less || kind == TokenKind::LessEqual,
            Level::Term => kind == TokenKind::Minus || kind == TokenKind::Plus,
            Level::Factor => kind == TokenKind::Slash || kind == TokenKind::Star,
        }
    }

    /// The expression that an operator of the level makes of its operands.
    pub fn node(self, left: Expr, operator: Token, right: Expr) -> (joined: Expr)
        ensures
            joined.view() == self.join(left.view(), operator@, right.view()),
    {
        match self {
            Level::Or | Level::And => Expr::Logical {
                left: Box::new(left),
                operator,
                right: Box::new(right),
            },
            _ => Expr::Binary { left: Box::new(left), operator, right: Box::new(right) },
        }
    }
}

/// The parser. It keeps the diagnostics of its last run.
pub struct Parser {
    tokens: Vec<Token>,
    current: usize,
    diagnostics: Vec<Diagnostic>,
}

impl Parser {
    /// The tokens being parsed.
    pub closed spec fn input(&self) -> Seq<TokenView> {
        token_views(self.tokens@)
    }

    /// Where the parser stands and what it has reported.
    pub closed spec fn state(&self) -> ParserState {
        ParserState { pos: self.current as nat, diagnostics: diagnostic_views(self.diagnostics@) }
    }

    /// What the parser has reported.
    pub closed spec fn reported(&self) -> Seq<DiagnosticView> {
        diagnostic_views(self.diagnostics@)
    }

    /// How many tokens are left to read.
    pub closed spec fn left(&self) -> nat {
        left(self.input(), self.current as nat)
    }

    /// The parser stands inside its tokens.
    pub closed spec fn wf(&self) -> bool {
        self.current <= self.tokens@.len()
    }

    /// The parser has the tokens it had in `before` and has not gone back.
    pub closed spec fn follows(&self, before: &Parser) -> bool {
        &&& self.wf()
        &&& self.tokens == before.tokens
        &&& self.current >= before.current
    }

    pub fn new() -> (parser: Parser)
        ensures
            parser.wf(),
            parser.reported().len() == 0,
    {
        Parser { tokens: Vec::new(), current: 0, diagnostics: Vec::new() }
    }

    /// The diagnostics of the last run.
    pub fn diagnostics(&self) -> (list: &Vec<Diagnostic>)
        ensures
            diagnostic_views(list@) == self.reported(),
    {
        &self.diagnostics
    }

    /// The kind of the next token.
    fn peek_kind(&self) -> (kind: TokenKind)
        ensures
            kind == grammar::kind_at(self.input(), self.current as nat),
            kind != TokenKind::Eof ==> self.current < self.tokens@.len(),
    {
        if self.current < self.tokens.len() {
            self.tokens[self.current].kind
        } else {
            TokenKind::Eof
        }
    }

    /// The next token.
    fn peek(&self) -> (token: Token)
        ensures
            token@ == grammar::token_at(self.input(), self.current as nat),
            token.kind != TokenKind::Eof ==> self.current < self.tokens@.len(),
    {
        if self.current < self.tokens.len() {
            self.tokens[self.current].clone()
        } else {
            Token::new(TokenKind::Eof, 0, 0)
        }
    }

    /// Whether the next token ends the input.
    fn is_end(&self) -> (end: bool)
        ensures
            end == (grammar::kind_at(self.input(), self.current as nat) == TokenKind::Eof),
            !end ==> self.current < self.tokens@.len(),
    {
        self.peek_kind() == TokenKind::Eof
    }

    /// The token before the next one, or the first one at the start.
    fn previous(&self) -> (token: Token)
        ensures
            token@ == grammar::previous_at(self.input(), self.current as nat),
    {
        let at = if self.current > 0 { self.current - 1 } else { 0 };
        if at < self.tokens.len() {
            self.tokens[at].clone()
        } else {
            Token::new(TokenKind::Eof, 0, 0)
        }
    }

    /// Goes past the next token.
    fn advance(&mut self)
        requires
            old(self).current < old(self).tokens@.len(),
        ensures
            final(self).follows(old(self)),
            final(self).current == old(self).current + 1,
            final(self).left() + 1 == old(self).left(),
            final(self).diagnostics == old(self).diagnostics,
            final(self).state() == old(self).state().advance(),
    {
        let length = self.tokens.len();
        self.current += 1;
    }

    /// Reports a parser error at the place of `at`.
    fn report(&mut self, at: &Token, message: String)
        ensures
            final(self).tokens == old(self).tokens,
            final(self).current == old(self).current,
            final(self).state() == old(self).state().report(at@, message@),
    {
        let diagnostic = Diagnostic {
            kind: ErrorType::ParserError,
            line: at.line,
            column: at.column,
            message,
        };
        self.diagnostics.push(diagnostic);
        assert(diagnostic_views(self.diagnostics@) =~= diagnostic_views(old(self).diagnostics@).push(
            diagnostic@,
        ));
    }

    /// The parser has read a construct since `before`: `value` is what
    /// it read, and `outcome` is what the grammar gives.
    pub closed spec fn read<T>(
        &self,
        before: &Parser,
        value: Option<T>,
        outcome: grammar::Parsed<T>,
    ) -> bool {
        &&& self.follows(before)
        &&& parsed(value, self.state()) == outcome
    }

    /// The parser has gone past at least one token since `before`, if it
    /// has read something.
    pub closed spec fn moved<T>(&self, before: &Parser, value: Option<T>) -> bool {
        value is Some ==> self.current > before.current
    }

    /// The fuel is enough for a construct of the given rank.
    pub closed spec fn fueled(&self, fuel: nat, rank: nat) -> bool {
        &&& self.wf()
        &&& fueled(self.input(), self.state(), fuel, rank)
    }

    fn primary(&mut self, Ghost(fuel): Ghost<nat>) -> (result: Result<Expr, ()>)
        requires
            old(self).fueled(fuel, 1),
        ensures
            final(self).read(
                old(self),
                expr_read(result),
                grammar::primary(old(self).input(), old(self).state(), fuel),
            ),
            final(self).moved(old(self), expr_read(result)),
        decreases fuel,
    {
        let token = self.peek();
        match token.kind {
            TokenKind::Number => {
                self.advance();
                Ok(Expr::Number { digits: token.text })
            },
            TokenKind::String => {
                self.advance();
                Ok(Expr::Literal { value: Literal::String(token.text) })
            },
            TokenKind::True => {
                self.advance();
                Ok(Expr::Literal { value: Literal::Boolean(true) })
            },
            TokenKind::False => {
                self.advance();
                Ok(Expr::Literal { value: Literal::Boolean(false) })
            },
            TokenKind::Nil => {
                self.advance();
                Ok(Expr::Literal { value: Literal::Nil })
            },
            TokenKind::Identifier => {
                self.advance();
                Ok(Expr::Variable { name: token })
            },
            TokenKind::LeftParen => {
                self.advance();
                let expression = self.assignment(Ghost((fuel - 1) as nat))?;
                if self.peek_kind() == TokenKind::RightParen {
                    self.advance();
                    Ok(Expr::Grouping { expression: Box::new(expression) })
                } else {
                    let found = self.peek();
                    self.report(&found, String::from_str("Expected ')' after expression."));
                    Err(())
                }
            },
            _ => {
                self.report(&token, String::from_str("Expected expression."));
                Err(())
            },
        }
    }

    /// Reads the arguments of a call, up to the `)` that closes them.
    fn arguments(&mut self, Ghost(fuel): Ghost<nat>) -> (result: Result<Vec<Stmt>, ()>)
        requires
            old(self).fueled(fuel, 21),
        ensures
            final(self).read(
                old(self),
                stmts_read(result),
                grammar::arguments(old(self).input(), Seq::empty(), old(self).state(), fuel),
            ),
        decreases fuel,
    {
        let mut arguments: Vec<Stmt> = Vec::new();
        let ghost mut left: nat = fuel;
        loop
            invariant
                self.follows(old(self)),
                self.fueled(left, 21),
                left <= fuel,
                grammar::arguments(self.input(), view_of_statements(arguments@), self.state(), left)
                    == grammar::arguments(old(self).input(), Seq::empty(), old(self).state(), fuel),
            decreases left,
        {
            proof {
                lemma_view_of_statements(arguments@);
            }
            let token = self.peek();
            if arguments.len() == 0 && (token.kind == TokenKind::Eof || token.kind
                == TokenKind::RightParen) {
                return Ok(arguments);
            }
            if arguments.len() >= 255 {
                self.report(&token, String::from_str("Can not have more than 255 arguments."));
            }
            let argument = self.parse_token(true, Ghost((left - 1) as nat))?;
            let ghost prior = arguments@;
            arguments.push(argument);
            assert(arguments@.drop_last() =~= prior);
            let next = self.peek();
            if next.kind == TokenKind::RightParen {
                return Ok(arguments);
            }
            if next.kind == TokenKind::Comma {
                self.advance();
                proof {
                    left = (left - 1) as nat;
                }
            } else {
                self.report(&next, String::from_str("Expected ')' or ',' after argument."));
                return Err(());
            }
        }
    }

    /// Reads a callee and the calls that follow it.
    fn call(&mut self, Ghost(fuel): Ghost<nat>) -> (result: Result<Expr, ()>)
        requires
            old(self).fueled(fuel, 3),
        ensures
            final(self).read(
                old(self),
                expr_read(result),
                grammar::call(old(self).input(), old(self).state(), fuel),
            ),
            final(self).moved(old(self), expr_read(result)),
        decreases fuel,
    {
        let mut callee = self.primary(Ghost((fuel - 1) as nat))?;
        let ghost mut left: nat = (fuel - 1) as nat;
        loop
            invariant
                self.follows(old(self)),
                self.current > old(self).current,
                self.fueled(left, 2),
                left < fuel,
                grammar::calls(self.input(), callee.view(), self.state(), left) == grammar::call(
                    old(self).input(),
                    old(self).state(),
                    fuel,
                ),
            decreases left,
        {
            let open = self.peek();
            if open.kind != TokenKind::LeftParen {
                return Ok(callee);
            }
            self.advance();
            let arguments = self.arguments(Ghost((left - 1) as nat))?;
            let paren = self.peek();
            if paren.kind == TokenKind::RightParen {
                self.advance();
                callee = Expr::Call { callee: Box::new(callee), paren, arguments };
                proof {
                    left = (left - 1) as nat;
                }
            } else {
                self.report(&open, String::from_str("Expected ')' after arguments."));
                return Err(());
            }
        }
    }

    fn unary(&mut self, Ghost(fuel): Ghost<nat>) -> (result: Result<Expr, ()>)
        requires
            old(self).fueled(fuel, 4),
        ensures
            final(self).read(
                old(self),
                expr_read(result),
                grammar::unary(old(self).input(), old(self).state(), fuel),
            ),
            final(self).moved(old(self), expr_read(result)),
        decreases fuel,
    {
        let operator = self.peek();
        if operator.kind == TokenKind::Bang || operator.kind == TokenKind::Minus {
            self.advance();
            let right = self.unary(Ghost((fuel - 1) as nat))?;
            Ok(Expr::Unary { operator, right: Box::new(right) })
        } else {
            self.call(Ghost((fuel - 1) as nat))
        }
    }

    /// Reads an operand of an operator of the level.
    fn operand(&mut self, level: Level, Ghost(fuel): Ghost<nat>) -> (result: Result<Expr, ()>)
        requires
            old(self).fueled(fuel, (level.rank() - 1) as nat),
        ensures
            final(self).read(
                old(self),
                expr_read(result),
                grammar::operand(old(self).input(), old(self).state(), level, fuel),
            ),
            final(self).moved(old(self), expr_read(result)),
        decreases fuel,
    {
        match level {
            Level::Or => self.binary(Level::And, Ghost((fuel - 1) as nat)),
            Level::And => self.binary(Level::Equality, Ghost((fuel - 1) as nat)),
            Level::Equality => self.binary(Level::Comparison, Ghost((fuel - 1) as nat)),
            Level::Comparison => self.binary(Level::Term, Ghost((fuel - 1) as nat)),
            Level::Term => self.binary(Level::Factor, Ghost((fuel - 1) as nat)),
            Level::Factor => self.unary(Ghost((fuel - 1) as nat)),
        }
    }

    /// Reads an expression of the level: operands joined from the left by
    /// the operators of the level.
    fn binary(&mut self, level: Level, Ghost(fuel): Ghost<nat>) -> (result: Result<Expr, ()>)
        requires
            old(self).fueled(fuel, level.rank()),
        ensures
            final(self).read(
                old(self),
                expr_read(result),
                grammar::binary(old(self).input(), old(self).state(), level, fuel),
            ),
            final(self).moved(old(self), expr_read(result)),
        decreases fuel,
    {
        let mut left = self.operand(level, Ghost((fuel - 1) as nat))?;
        let ghost mut rest: nat = (fuel - 1) as nat;
        loop
            invariant
                self.follows(old(self)),
                self.current > old(self).current,
                self.fueled(rest, level.rank()),
                rest < fuel,
                grammar::operations(self.input(), left.view(), self.state(), level, rest)
                    == grammar::binary(old(self).input(), old(self).state(), level, fuel),
            decreases rest,
        {
            let operator = self.peek();
            if !level.holds(operator.kind) {
                return Ok(left);
            }
            self.advance();
            let right = self.operand(level, Ghost((rest - 1) as nat))?;
            left = level.node(left, operator, right);
            proof {
                rest = (rest - 1) as nat;
            }
        }
    }

    fn assignment(&mut self, Ghost(fuel): Ghost<nat>) -> (result: Result<Expr, ()>)
        requires
            old(self).fueled(fuel, 17),
        ensures
            final(self).read(
                old(self),
                expr_read(result),
                grammar::assignment(old(self).input(), old(self).state(), fuel),
            ),
            final(self).moved(old(self), expr_read(result)),
        decreases fuel,
    {
        let target = self.binary(Level::Or, Ghost((fuel - 1) as nat))?;
        let ghost whole = target.view();
        let ghost middle = self.state();
        let ghost spec_target = grammar::binary(
            old(self).input(),
            old(self).state(),
            Level::Or,
            (fuel - 1) as nat,
        );
        assert(spec_target == grammar::done(whole, middle));
        match target {
            Expr::Variable { name } => {
                assert(whole == ExprView::Variable { name: name@ });
                let sign = self.peek();
                let operator = match sign.kind {
                    TokenKind::PlusEqual => Some(TokenKind::Plus),
                    TokenKind::MinusEqual => Some(TokenKind::Minus),
                    TokenKind::StarEqual => Some(TokenKind::Star),
                    _ => None,
                };
                assert(operator == grammar::compound(sign.kind));
                if sign.kind == TokenKind::Equal || operator.is_some() {
                    self.advance();
                    let value = self.assignment(Ghost((fuel - 1) as nat))?;
                    let ghost source = value.view();
                    let assigned = match operator {
                        Some(kind) => Expr::Binary {
                            left: Box::new(Expr::Variable { name: name.clone() }),
                            operator: Token::new(kind, sign.line, sign.column),
                            right: Box::new(value),
                        },
                        None => value,
                    };
                    assert(assigned.view() == grammar::assigned(name@, sign@, source));
                    Ok(Expr::Assign { name, value: Box::new(assigned) })
                } else {
                    Ok(Expr::Variable { name })
                }
            },
            other => {
                assert(!(whole is Variable));
                Ok(other)
            },
        }
    }

    /// Reads an expression and the `;` after it.
    fn terminated(&mut self, message: &str, Ghost(fuel): Ghost<nat>) -> (result: Result<Expr, ()>)
        requires
            old(self).fueled(fuel, 18),
        ensures
            final(self).read(
                old(self),
                expr_read(result),
                grammar::terminated(old(self).input(), old(self).state(), message@, fuel),
            ),
            final(self).moved(old(self), expr_read(result)),
        decreases fuel,
    {
        let expr = self.assignment(Ghost((fuel - 1) as nat))?;
        if self.check_semicolon(message) {
            Ok(expr)
        } else {
            Err(())
        }
    }

    /// Reads the condition of a `while` or an `if` in its parentheses; the
    /// keyword `word` was just read.
    fn condition(&mut self, word: &str, Ghost(fuel): Ghost<nat>) -> (result: Result<Expr, ()>)
        requires
            old(self).fueled(fuel, 18),
        ensures
            final(self).read(
                old(self),
                expr_read(result),
                grammar::condition(old(self).input(), old(self).state(), word@, fuel),
            ),
            final(self).moved(old(self), expr_read(result)),
        decreases fuel,
    {
        if self.peek_kind() != TokenKind::LeftParen {
            let at = self.previous();
            let mut message = String::from_str("Expected '(' after '");
            message.append(word);
            message.append("'.");
            self.report(&at, message);
            return Err(());
        }
        self.advance();
        let value = self.assignment(Ghost((fuel - 1) as nat))?;
        if self.peek_kind() == TokenKind::RightParen {
            self.advance();
            Ok(value)
        } else {
            let found = self.peek();
            self.report(&found, String::from_str("Expected ')' after condition."));
            Err(())
        }
    }

    /// Reads the statements of a block after its `{`, and its `}`.
    fn braces(&mut self, Ghost(fuel): Ghost<nat>) -> (result: Result<Vec<Stmt>, ()>)
        requires
            old(self).fueled(fuel, 22),
        ensures
            final(self).read(
                old(self),
                stmts_read(result),
                grammar::braces(old(self).input(), old(self).state(), fuel),
            ),
        decreases fuel,
    {
        let mut statements: Vec<Stmt> = Vec::new();
        let ghost mut left: nat = (fuel - 1) as nat;
        loop
            invariant_except_break
                grammar::block(self.input(), view_of_statements(statements@), self.state(), left)
                    == grammar::block(
                    old(self).input(),
                    Seq::empty(),
                    old(self).state(),
                    (fuel - 1) as nat,
                ),
            invariant
                self.follows(old(self)),
                self.fueled(left, 21),
                left < fuel,
            ensures
                grammar::done(view_of_statements(statements@), self.state()) == grammar::block(
                    old(self).input(),
                    Seq::empty(),
                    old(self).state(),
                    (fuel - 1) as nat,
                ),
            decreases left,
        {
            let kind = self.peek_kind();
            if kind == TokenKind::Eof || kind == TokenKind::RightBrace {
                break ;
            }
            let statement = self.parse_token(false, Ghost((left - 1) as nat))?;
            let ghost prior = statements@;
            statements.push(statement);
            assert(statements@.drop_last() =~= prior);
            proof {
                left = (left - 1) as nat;
            }
        }
        if self.peek_kind() == TokenKind::RightBrace {
            self.advance();
            Ok(statements)
        } else {
            let found = self.peek();
            self.report(&found, String::from_str("Expected '}' after block."));
            Err(())
        }
    }

    /// Reads the parameters of a function, and the `)` that closes them.
    fn parameters(&mut self, Ghost(fuel): Ghost<nat>) -> (result: Result<Vec<String>, ()>)
        requires
            old(self).fueled(fuel, 1),
        ensures
            final(self).follows(old(self)),
            parsed(
                match result {
                    Ok(names) => Some(string_views(names@)),
                    Err(_) => None,
                },
                final(self).state(),
            ) == grammar::parameters(old(self).input(), Seq::empty(), old(self).state(), fuel),
    {
        let mut names: Vec<String> = Vec::new();
        let ghost mut left: nat = fuel;
        assert(string_views(names@) =~= Seq::empty());
        loop
            invariant
                self.follows(old(self)),
                self.fueled(left, 1),
                grammar::parameters(self.input(), string_views(names@), self.state(), left)
                    == grammar::parameters(old(self).input(), Seq::empty(), old(self).state(), fuel),
            decreases left,
        {
            let token = self.peek();
            if token.kind == TokenKind::Eof {
                self.report(&token, String::from_str("Expected ')' after parameters."));
                return Err(());
            }
            if names.len() == 0 && token.kind == TokenKind::RightParen {
                self.advance();
                return Ok(names);
            }
            if token.kind != TokenKind::Identifier {
                self.report(&token, String::from_str("Expected identifier."));
                return Err(());
            }
            if names.len() >= 255 {
                self.report(&token, String::from_str("Can not have more than 255 parameters."));
            }
            self.advance();
            let ghost prior = names@;
            names.push(token.text);
            assert(string_views(names@) =~= string_views(prior).push(token.text@));
            let next = self.peek();
            if next.kind == TokenKind::RightParen {
                self.advance();
                return Ok(names);
            }
            if next.kind == TokenKind::Comma {
                self.advance();
                proof {
                    left = (left - 1) as nat;
                }
            } else {
                self.report(&next, String::from_str("Expected ')' or ',' after parameter."));
                return Err(());
            }
        }
    }

    /// Reads the rest of a function declaration after `fun`.
    fn function(&mut self, Ghost(fuel): Ghost<nat>) -> (result: Result<Stmt, ()>)
        requires
            old(self).fueled(fuel, 23),
        ensures
            final(self).read(
                old(self),
                stmt_read(result),
                grammar::function(old(self).input(), old(self).state(), fuel),
            ),
        decreases fuel,
    {
        let first = self.peek();
        let name = if first.kind == TokenKind::Identifier {
            self.advance();
            Some(first.text)
        } else {
            None
        };
        if self.peek_kind() != TokenKind::LeftParen {
            let at = self.previous();
            self.report(&at, String::from_str("Expected '(' after function name."));
            return Err(());
        }
        self.advance();
        let params = self.parameters(Ghost((fuel - 1) as nat))?;
        if self.peek_kind() != TokenKind::LeftBrace {
            let found = self.peek();
            self.report(&found, String::from_str("Expected block after function declaration."));
            return Err(());
        }
        self.advance();
        let body = self.braces(Ghost((fuel - 1) as nat))?;
        Ok(Stmt::Function { name, params, body })
    }

    /// Reads the rest of a conditional after `if`.
    #[verifier::rlimit(30)]
    fn conditional(&mut self, Ghost(fuel): Ghost<nat>) -> (result: Result<Stmt, ()>)
        requires
            old(self).fueled(fuel, 23),
        ensures
            final(self).read(
                old(self),
                stmt_read(result),
                grammar::conditional(old(self).input(), old(self).state(), fuel),
            ),
        decreases fuel,
    {
        let condition = self.condition("if", Ghost((fuel - 1) as nat))?;
        let then_branch = self.parse_token(false, Ghost((fuel - 1) as nat))?;
        if self.peek_kind() == TokenKind::Else {
            self.advance();
            let else_branch = self.parse_token(false, Ghost((fuel - 1) as nat))?;
            Ok(
                Stmt::Conditional {
                    condition,
                    then_branch: Box::new(then_branch),
                    else_branch: Some(Box::new(else_branch)),
                },
            )
        } else {
            Ok(
                Stmt::Conditional {
                    condition,
                    then_branch: Box::new(then_branch),
                    else_branch: None,
                },
            )
        }
    }

    /// Reads the rest of a loop after `while`.
    fn while_loop(&mut self, Ghost(fuel): Ghost<nat>) -> (result: Result<Stmt, ()>)
        requires
            old(self).fueled(fuel, 23),
        ensures
            final(self).read(
                old(self),
                stmt_read(result),
                grammar::while_loop(old(self).input(), old(self).state(), fuel),
            ),
        decreases fuel,
    {
        let condition = self.condition("while", Ghost((fuel - 1) as nat))?;
        let body = self.parse_token(false, Ghost((fuel - 1) as nat))?;
        Ok(Stmt::While { condition, body: Box::new(body) })
    }

    /// Reads what a declared variable starts with, and the `;` that ends
    /// the declaration.
    fn initializer(&mut self, Ghost(fuel): Ghost<nat>) -> (result: Result<Expr, ()>)
        requires
            old(self).fueled(fuel, 19),
        ensures
            final(self).read(
                old(self),
                expr_read(result),
                grammar::initializer(old(self).input(), old(self).state(), fuel),
            ),
        decreases fuel,
    {
        if self.peek_kind() == TokenKind::Equal {
            self.advance();
            self.terminated("Expected ';' after expression.", Ghost((fuel - 1) as nat))
        } else if self.check_semicolon("Expected ';' after expression.") {
            Ok(Expr::Literal { value: Literal::Nil })
        } else {
            Err(())
        }
    }

    /// Reads the rest of a declaration after `var`.
    fn variable(&mut self, Ghost(fuel): Ghost<nat>) -> (result: Result<Stmt, ()>)
        requires
            old(self).fueled(fuel, 23),
        ensures
            final(self).read(
                old(self),
                stmt_read(result),
                grammar::variable(old(self).input(), old(self).state(), fuel),
            ),
        decreases fuel,
    {
        let name = self.peek();
        if name.kind != TokenKind::Identifier {
            self.report(&name, String::from_str("Expected identifier."));
            return Err(());
        }
        self.advance();
        let expr = self.initializer(Ghost((fuel - 1) as nat))?;
        Ok(Stmt::Var { name: name.text, expr })
    }

    /// Reads the first clause of a `for` loop.
    fn for_initializer(&mut self, Ghost(fuel): Ghost<nat>) -> (result: Result<Option<Stmt>, ()>)
        requires
            old(self).fueled(fuel, 21),
        ensures
            final(self).read(
                old(self),
                clause_read(result),
                grammar::for_initializer(old(self).input(), old(self).state(), fuel),
            ),
        decreases fuel,
    {
        let kind = self.peek_kind();
        if kind == TokenKind::Semicolon {
            self.advance();
            Ok(None)
        } else if kind == TokenKind::Var {
            Ok(Some(self.parse_token(false, Ghost((fuel - 1) as nat))?))
        } else {
            Ok(Some(self.expression_statement(false, Ghost((fuel - 1) as nat))?))
        }
    }

    /// Reads the second clause of a `for` loop.
    fn for_condition(&mut self, Ghost(fuel): Ghost<nat>) -> (result: Result<Expr, ()>)
        requires
            old(self).fueled(fuel, 19),
        ensures
            final(self).read(
                old(self),
                expr_read(result),
                grammar::for_condition(old(self).input(), old(self).state(), fuel),
            ),
        decreases fuel,
    {
        if self.peek_kind() == TokenKind::Semicolon {
            self.advance();
            Ok(Expr::Literal { value: Literal::Boolean(true) })
        } else {
            self.terminated("Expected ';' after expression.", Ghost((fuel - 1) as nat))
        }
    }

    /// Reads the third clause of a `for` loop.
    fn for_increment(&mut self, Ghost(fuel): Ghost<nat>) -> (result: Result<Option<Expr>, ()>)
        requires
            old(self).fueled(fuel, 18),
        ensures
            final(self).read(
                old(self),
                increment_read(result),
                grammar::for_increment(old(self).input(), old(self).state(), fuel),
            ),
        decreases fuel,
    {
        if self.peek_kind() == TokenKind::RightParen {
            Ok(None)
        } else {
            Ok(Some(self.assignment(Ghost((fuel - 1) as nat))?))
        }
    }

    /// Reads the three clauses of a `for` loop and the `)` after them.
    fn for_clauses(&mut self, Ghost(fuel): Ghost<nat>) -> (result: Result<
        (Option<Stmt>, Expr, Option<Expr>),
        (),
    >)
        requires
            old(self).fueled(fuel, 22),
        ensures
            final(self).read(
                old(self),
                clauses_read(result),
                grammar::for_clauses(old(self).input(), old(self).state(), fuel),
            ),
        decreases fuel,
    {
        let initializer = self.for_initializer(Ghost((fuel - 1) as nat))?;
        let condition = self.for_condition(Ghost((fuel - 1) as nat))?;
        let increment = self.for_increment(Ghost((fuel - 1) as nat))?;
        if self.peek_kind() != TokenKind::RightParen {
            let found = self.peek();
            self.report(&found, String::from_str("Expected ')' after loop increment."));
            return Err(());
        }
        self.advance();
        Ok((initializer, condition, increment))
    }

    /// Reads the rest of a `for` loop after its `(`, and builds the `while`
    /// loop that it stands for.
    fn for_loop(&mut self, Ghost(fuel): Ghost<nat>) -> (result: Result<Stmt, ()>)
        requires
            old(self).fueled(fuel, 23),
        ensures
            final(self).read(
                old(self),
                stmt_read(result),
                grammar::for_loop(old(self).input(), old(self).state(), fuel),
            ),
        decreases fuel,
    {
        let (initializer, condition, increment) = self.for_clauses(Ghost((fuel - 1) as nat))?;
        let body = self.parse_token(false, Ghost((fuel - 1) as nat))?;
        Ok(lower(initializer, condition, increment, body))
    }

    /// Reads an expression as a statement: with the `;` after it, or, as an
    /// argument of a call (`in_call`), without.
    fn expression_statement(
        &mut self,
        in_call: bool,
        Ghost(fuel): Ghost<nat>,
    ) -> (result: Result<Stmt, ()>)
        requires
            old(self).fueled(fuel, 19),
        ensures
            final(self).read(
                old(self),
                stmt_read(result),
                grammar::expression_statement(old(self).input(), old(self).state(), in_call, fuel),
            ),
            final(self).moved(old(self), stmt_read(result)),
        decreases fuel,
    {
        let expr = if in_call {
            self.assignment(Ghost((fuel - 1) as nat))?
        } else {
            self.terminated("Expect ';' after expression.", Ghost((fuel - 1) as nat))?
        };
        Ok(Stmt::Expression { expr })
    }

    /// Reads one statement. As an argument of a call (`in_call`), an
    /// expression needs no `;` after it.
    fn parse_token(&mut self, in_call: bool, Ghost(fuel): Ghost<nat>) -> (result: Result<Stmt, ()>)
        requires
            old(self).fueled(fuel, 20),
        ensures
            final(self).read(
                old(self),
                stmt_read(result),
                grammar::statement(old(self).input(), old(self).state(), in_call, fuel),
            ),
            final(self).moved(old(self), stmt_read(result)),
        decreases fuel,
    {
        let first = self.peek();
        let ghost rest = (fuel - 1) as nat;
        match first.kind {
            TokenKind::Print => {
                self.advance();
                let expr = self.terminated("Expected ';' after statement.", Ghost(rest))?;
                Ok(Stmt::Print { expr })
            },
            TokenKind::Return => {
                self.advance();
                let expr = self.terminated("Expected ';' after return value.", Ghost(rest))?;
                Ok(Stmt::Return { expr })
            },
            TokenKind::Break => {
                self.advance();
                if self.check_semicolon("Expected ';' after statement.") {
                    Ok(Stmt::Break { line: first.line, column: first.column })
                } else {
                    Err(())
                }
            },
            TokenKind::Var => {
                self.advance();
                self.variable(Ghost(rest))
            },
            TokenKind::LeftBrace => {
                self.advance();
                let statements = self.braces(Ghost(rest))?;
                Ok(Stmt::Block { statements })
            },
            TokenKind::If => {
                self.advance();
                self.conditional(Ghost(rest))
            },
            TokenKind::While => {
                self.advance();
                self.while_loop(Ghost(rest))
            },
            TokenKind::For => {
                self.advance();
                if self.peek_kind() == TokenKind::LeftParen {
                    self.advance();
                    self.for_loop(Ghost(rest))
                } else {
                    self.report(&first, String::from_str("Expected '(' after 'for'."));
                    Err(())
                }
            },
            TokenKind::Fun => {
                self.advance();
                self.function(Ghost(rest))
            },
            _ => self.expression_statement(in_call, Ghost(rest)),
        }
    }

    /// Parses a program. The result holds the statements read before the
    /// first one in which an error was reported: as `Ok` if there was none,
    /// as `Err` otherwise. After a statement that fails the parser goes on
    /// from the next statement boundary to report what else is wrong. The
    /// diagnostics are kept in the parser.
    pub fn parse(&mut self, tokens: Vec<Token>) -> (result: Result<Vec<Stmt>, Vec<Stmt>>)
        ensures
            final(self).reported() == grammar::parse(token_views(tokens@)).diagnostics,
            result is Ok == grammar::parse(token_views(tokens@)).complete,
            view_of_statements(
                match result {
                    Ok(statements) => statements@,
                    Err(statements) => statements@,
                },
            ) == grammar::parse(token_views(tokens@)).statements,
    {
        self.current = 0;
        self.tokens = tokens;
        self.diagnostics = Vec::new();
        let mut statements: Vec<Stmt> = Vec::new();
        let mut complete = true;
        let ghost mut left: nat = grammar::fuel_for(self.input());
        assert(self.state().diagnostics =~= Seq::empty());
        while !self.is_end()
            invariant
                self.wf(),
                self.tokens == tokens,
                self.fueled(left, 21),
                grammar::program(
                    self.input(),
                    view_of_statements(statements@),
                    complete,
                    self.state(),
                    left,
                ) == grammar::parse(self.input()),
            decreases left,
        {
            let start = self.current;
            let reported = self.diagnostics.len();
            let parsed = self.parse_token(false, Ghost((left - 1) as nat));
            if self.diagnostics.len() != reported {
                complete = false;
            }
            match parsed {
                Ok(statement) => {
                    if complete {
                        let ghost prior = statements@;
                        statements.push(statement);
                        assert(statements@.drop_last() =~= prior);
                    }
                },
                Err(_) => {
                    complete = false;
                    if self.current == start {
                        self.advance();
                    }
                    self.synchronize();
                },
            }
            proof {
                left = (left - 1) as nat;
            }
        }
        if complete {
            Ok(statements)
        } else {
            Err(statements)
        }
    }

    /// Goes on to the next statement boundary: past the next `;`, or up to
    /// the next token that starts a statement or ends the input.
    fn synchronize(&mut self)
        requires
            old(self).wf(),
        ensures
            final(self).follows(old(self)),
            final(self).diagnostics == old(self).diagnostics,
            final(self).current == grammar::synchronized(
                old(self).input(),
                old(self).current as nat,
            ),
    {
        while !self.is_end()
            invariant_except_break
                grammar::synchronized(self.input(), self.current as nat) == grammar::synchronized(
                    old(self).input(),
                    old(self).current as nat,
                ),
            invariant
                self.follows(old(self)),
                self.diagnostics == old(self).diagnostics,
            ensures
                self.current == grammar::synchronized(old(self).input(), old(self).current as nat),
            decreases self.tokens@.len() - self.current,
        {
            let kind = self.peek_kind();
            if starts_statement(kind) {
                break ;
            }
            self.advance();
            if kind == TokenKind::Semicolon {
                break ;
            }
        }
    }

    /// Reads the `;` that ends a statement, or reports that it is missing.
    fn check_semicolon(&mut self, message: &str) -> (found: bool)
        requires
            old(self).wf(),
        ensures
            final(self).follows(old(self)),
            grammar::parsed(if found { Some(()) } else { None }, final(self).state())
                == grammar::semicolon(old(self).input(), old(self).state(), message@),
            found ==> final(self).current > old(self).current,
    {
        if self.peek_kind() == TokenKind::Semicolon {
            self.advance();
            true
        } else {
            let at = self.previous();
            self.report(&at, String::from_str(message));
            false
        }
    }
}

/// Builds what a `for` loop stands for.
fn lower(
    initializer: Option<Stmt>,
    condition: Expr,
    increment: Option<Expr>,
    body: Stmt,
) -> (lowered: Stmt)
    ensures
        lowered.view() == grammar::lowered(
            match initializer {
                Some(first) => Some(first.view()),
                None => None,
            },
            condition.view(),
            match increment {
                Some(expr) => Some(expr.view()),
                None => None,
            },
            body.view(),
        ),
{
    let ghost body_view = body.view();
    let ghost condition_view = condition.view();
    let repeated = match increment {
        Some(expr) => {
            let ghost expr_view = expr.view();
            let mut statements: Vec<Stmt> = Vec::new();
            statements.push(body);
            statements.push(Stmt::Expression { expr });
            proof {
                lemma_view_of_statements(statements@);
                assert(view_of_statements(statements@) =~= seq![
                    body_view,
                    StmtView::Expression { expr: expr_view },
                ]);
            }
            Stmt::Block { statements }
        },
        None => body,
    };
    let ghost repeated_view = repeated.view();
    let looped = Stmt::While { condition, body: Box::new(repeated) };
    assert(looped.view() == StmtView::While {
        condition: condition_view,
        body: Box::new(repeated_view),
    });
    let ghost looped_view = looped.view();
    match initializer {
        Some(first) => {
            let ghost first_view = first.view();
            let mut statements: Vec<Stmt> = Vec::new();
            statements.push(first);
            statements.push(looped);
            proof {
                lemma_view_of_statements(statements@);
                assert(view_of_statements(statements@) =~= seq![first_view, looped_view]);
            }
            Stmt::Block { statements }
        },
        None => looped,
    }
}

/// Whether a statement may start with a token of this kind.
fn starts_statement(kind: TokenKind) -> (starts: bool)
    ensures
        starts == grammar::starts_statement(kind),
{
    kind == TokenKind::Class || kind == TokenKind::Fun || kind == TokenKind::Var || kind
        == TokenKind::For || kind == TokenKind::If || kind == TokenKind::While || kind
        == TokenKind::Print || kind == TokenKind::Return
}

} // verus!
