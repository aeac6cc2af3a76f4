//! The resolver: a pass over the statement trees that finds, for every use
//! of a local variable, how many scopes lie between the use and the
//! declaration, and that reports a local variable that is read in its own
//! initializer.
//!
//! A block and the body of a function are scopes, as they are frames when
//! the program runs. What is declared outside every block and function is
//! global and is not resolved.
use vstd::prelude::*;
use vstd::string::*;
use crate::error::{diagnostic_views, Diagnostic, DiagnosticView, ErrorType};
use crate::expressions::Expr;
use crate::statements::Stmt;
use crate::text::same_text;
use crate::tokens::Token;

verus! {

/// A use of a local variable: the place of its name, and how many scopes
/// lie between the use and the declaration.
#[derive(Clone, Copy, Debug, PartialEq, Eq, Structural)]
pub struct Resolution {
    pub line: usize,
    pub column: usize,
    pub depth: usize,
}

/// A name in a scope: declared, and defined once its initializer is done.
#[derive(Debug)]
pub struct Entry {
    pub name: String,
    pub defined: bool,
}

/// The mathematical content of an [`Entry`].
pub struct EntryView {
    pub name: Seq<char>,
    pub defined: bool,
}

impl View for Entry {
    type V = EntryView;

    open spec fn view(&self) -> EntryView {
        EntryView { name: self.name@, defined: self.defined }
    }
}

/// What the resolver has found: the scopes around the place where it
/// stands, innermost last, the uses resolved and the errors reported.
pub struct Resolved {
    pub scopes: Seq<Seq<EntryView>>,
    pub resolutions: Seq<Resolution>,
    pub diagnostics: Seq<DiagnosticView>,
}

/// Whether the scope holds the name, and whether the name is defined
/// there: what the last entry of that name says.
pub open spec fn status(scope: Seq<EntryView>, name: Seq<char>) -> Option<bool>
    decreases scope.len(),
{
    if scope.len() == 0 {
        None
    } else if scope.last().name == name {
        Some(scope.last().defined)
    } else {
        status(scope.drop_last(), name)
    }
}

/// How many scopes lie between the innermost scope and the nearest one that
/// holds the name.
pub open spec fn depth_of(scopes: Seq<Seq<EntryView>>, name: Seq<char>) -> Option<nat>
    decreases scopes.len(),
{
    if scopes.len() == 0 {
        None
    } else if status(scopes.last(), name) is Some {
        Some(0)
    } else {
        match depth_of(scopes.drop_last(), name) {
            Some(depth) => Some(depth + 1),
            None => None,
        }
    }
}

/// The message for a local variable read in its own initializer.
pub open spec fn own_initializer() -> Seq<char> {
    "Can't read local variable in its own initializer."@
}

impl Resolved {
    /// The state after the name was entered in the innermost scope; outside
    /// every scope nothing is entered.
    pub open spec fn enter(self, name: Seq<char>, defined: bool) -> Resolved {
        if self.scopes.len() == 0 {
            self
        } else {
            Resolved {
                scopes: self.scopes.drop_last().push(
                    self.scopes.last().push(EntryView { name, defined }),
                ),
                ..self
            }
        }
    }

    /// The state inside one more scope.
    pub open spec fn begin(self) -> Resolved {
        Resolved { scopes: self.scopes.push(Seq::empty()), ..self }
    }

    /// The state outside the innermost scope.
    pub open spec fn end(self) -> Resolved {
        if self.scopes.len() == 0 {
            self
        } else {
            Resolved { scopes: self.scopes.drop_last(), ..self }
        }
    }

    /// The state after a use of the name was resolved: if a scope holds the
    /// name, the use is recorded with its depth.
    pub open spec fn locate(self, name: &Token) -> Resolved {
        match depth_of(self.scopes, name.text@) {
            Some(depth) => Resolved {
                resolutions: self.resolutions.push(
                    Resolution { line: name.line, column: name.column, depth: depth as usize },
                ),
                ..self
            },
            None => self,
        }
    }

    /// The state after the variable was read: it is an error to read a
    /// variable that the innermost scope has declared and not yet defined.
    pub open spec fn read(self, name: &Token) -> Resolved {
        let checked = if self.scopes.len() > 0 && status(self.scopes.last(), name.text@) == Some(
            false,
        ) {
            Resolved {
                diagnostics: self.diagnostics.push(
                    DiagnosticView {
                        kind: ErrorType::ResolverError,
                        line: name.line as nat,
                        column: name.column as nat,
                        message: own_initializer(),
                    },
                ),
                ..self
            }
        } else {
            self
        };
        checked.locate(name)
    }

    /// The state after the names were entered, defined, in the innermost
    /// scope.
    pub open spec fn enter_all(self, names: Seq<String>) -> Resolved
        decreases names.len(),
    {
        if names.len() == 0 {
            self
        } else {
            self.enter_all(names.drop_last()).enter(names.last()@, true)
        }
    }
}

/// The state after the expression was resolved.
pub open spec fn resolve_expr(state: Resolved, expr: &Expr) -> Resolved
    decreases expr,
{
    match expr {
        Expr::Binary { left, right, .. } => resolve_expr(resolve_expr(state, &**left), &**right),
        Expr::Logical { left, right, .. } => resolve_expr(resolve_expr(state, &**left), &**right),
        Expr::Unary { right, .. } => resolve_expr(state, &**right),
        Expr::Grouping { expression } => resolve_expr(state, &**expression),
        Expr::Variable { name } => state.read(name),
        Expr::Assign { name, value } => resolve_expr(state, &**value).locate(name),
        Expr::Call { callee, arguments, .. } => resolve_stmts(
            resolve_expr(state, &**callee),
            arguments@,
        ),
        Expr::Literal { .. } => state,
        Expr::Number { .. } => state,
    }
}

/// The state after the statement was resolved.
pub open spec fn resolve_stmt(state: Resolved, stmt: &Stmt) -> Resolved
    decreases stmt,
{
    match stmt {
        Stmt::Print { expr } => resolve_expr(state, expr),
        Stmt::Return { expr } => resolve_expr(state, expr),
        Stmt::Expression { expr } => resolve_expr(state, expr),
        Stmt::Var { name, expr } => resolve_expr(state.enter(name@, false), expr).enter(
            name@,
            true,
        ),
        Stmt::While { condition, body } => resolve_stmt(resolve_expr(state, condition), &**body),
        Stmt::Conditional { condition, then_branch, else_branch } => {
            let first = resolve_stmt(resolve_expr(state, condition), &**then_branch);
            match else_branch {
                Some(branch) => resolve_stmt(first, &**branch),
                None => first,
            }
        },
        Stmt::Block { statements } => resolve_stmts(state.begin(), statements@).end(),
        Stmt::Function { name, params, body } => {
            let named = match name {
                Some(name) => state.enter(name@, true),
                None => state,
            };
            resolve_stmts(named.begin().enter_all(params@), body@).end()
        },
        Stmt::Break { .. } => state,
    }
}

/// The state after the statements were resolved, one after the other.
pub open spec fn resolve_stmts(state: Resolved, statements: Seq<Stmt>) -> Resolved
    decreases statements,
{
    if statements.len() == 0 {
        state
    } else {
        resolve_stmt(resolve_stmts(state, statements.drop_last()), &statements.last())
    }
}

/// The state of a resolver that has seen nothing.
pub open spec fn fresh() -> Resolved {
    Resolved { scopes: Seq::empty(), resolutions: Seq::empty(), diagnostics: Seq::empty() }
}

/// The contents of a scope, one by one.
pub open spec fn entry_views(scope: Seq<Entry>) -> Seq<EntryView> {
    scope.map_values(|entry: Entry| entry@)
}

/// The contents of the scopes, one by one.
pub open spec fn scope_views(scopes: Seq<Vec<Entry>>) -> Seq<Seq<EntryView>> {
    scopes.map_values(|scope: Vec<Entry>| entry_views(scope@))
}

/// Whether the scope holds the name, and whether the name is defined there.
fn status_of(scope: &Vec<Entry>, name: &str) -> (found: Option<bool>)
    ensures
        found == status(entry_views(scope@), name@),
{
    let ghost all = entry_views(scope@);
    let mut i = scope.len();
    assert(all.take(i as int) =~= all);
    while i > 0
        invariant
            i <= scope@.len(),
            all == entry_views(scope@),
            status(all.take(i as int), name@) == status(all, name@),
        decreases i,
    {
        assert(all.take(i as int).drop_last() =~= all.take(i - 1));
        assert(all.take(i as int).last() == all[i - 1]);
        i -= 1;
        if same_text(scope[i].name.as_str(), name) {
            return Some(scope[i].defined);
        }
    }
    assert(all.take(0) =~= Seq::empty());
    None
}

/// The resolver.
pub struct Resolver {
    scopes: Vec<Vec<Entry>>,
    resolutions: Vec<Resolution>,
    diagnostics: Vec<Diagnostic>,
}

impl Resolver {
    pub closed spec fn view(&self) -> Resolved {
        Resolved {
            scopes: scope_views(self.scopes@),
            resolutions: self.resolutions@,
            diagnostics: diagnostic_views(self.diagnostics@),
        }
    }

    /// A resolver that has seen nothing.
    pub fn new() -> (resolver: Resolver)
        ensures
            resolver@ == fresh(),
    {
        let resolver = Resolver {
            scopes: Vec::new(),
            resolutions: Vec::new(),
            diagnostics: Vec::new(),
        };
        assert(resolver@.scopes =~= Seq::empty());
        assert(resolver@.diagnostics =~= Seq::empty());
        resolver
    }

    /// The uses of local variables resolved so far.
    pub fn resolutions(&self) -> (list: &Vec<Resolution>)
        ensures
            list@ == self@.resolutions,
    {
        &self.resolutions
    }

    /// The errors reported so far.
    pub fn diagnostics(&self) -> (list: &Vec<Diagnostic>)
        ensures
            diagnostic_views(list@) == self@.diagnostics,
    {
        &self.diagnostics
    }

    /// Enters the name in the innermost scope.
    fn enter(&mut self, name: &str, defined: bool)
        ensures
            final(self)@ == old(self)@.enter(name@, defined),
    {
        let count = self.scopes.len();
        if count > 0 {
            let entry = Entry { name: name.to_owned(), defined };
            self.scopes[count - 1].push(entry);
            assert(self@.scopes =~= old(self)@.scopes.drop_last().push(
                old(self)@.scopes.last().push(entry@),
            )) by {
                assert(entry_views(self.scopes@[count - 1]@) =~= entry_views(
                    old(self).scopes@[count - 1]@,
                ).push(entry@));
            }
        }
    }

    /// Declares the name in the innermost scope: it is there, and not yet
    /// defined.
    fn declare(&mut self, name: &str)
        ensures
            final(self)@ == old(self)@.enter(name@, false),
    {
        self.enter(name, false);
    }

    /// Defines the name in the innermost scope.
    fn define(&mut self, name: &str)
        ensures
            final(self)@ == old(self)@.enter(name@, true),
    {
        self.enter(name, true);
    }

    /// Opens a scope.
    fn begin(&mut self)
        ensures
            final(self)@ == old(self)@.begin(),
    {
        self.scopes.push(Vec::new());
        assert(self@.scopes =~= old(self)@.scopes.push(Seq::empty())) by {
            assert(entry_views(self.scopes@.last()@) =~= Seq::empty());
        }
    }

    /// Closes the innermost scope.
    fn end(&mut self)
        ensures
            final(self)@ == old(self)@.end(),
    {
        if self.scopes.len() > 0 {
            self.scopes.pop();
            assert(self@.scopes =~= old(self)@.scopes.drop_last());
        }
    }

    /// Records a use of the name with its depth, if a scope holds the name.
    fn resolve_loc(&mut self, name: &Token)
        ensures
            final(self)@ == old(self)@.locate(name),
    {
        let ghost all = self@.scopes;
        let total = self.scopes.len();
        let mut i = total;
        let mut depth: usize = 0;
        assert(all.take(i as int) =~= all);
        while i > 0
            invariant
                i <= self.scopes@.len(),
                depth + i == total,
                *self == *old(self),
                all == self@.scopes,
                depth_of(all, name.text@) == match depth_of(all.take(i as int), name.text@) {
                    Some(found) => Some((found + depth) as nat),
                    None => None,
                },
            decreases i,
        {
            assert(all.take(i as int).drop_last() =~= all.take(i - 1));
            assert(all.take(i as int).last() == all[i - 1]);
            i -= 1;
            if status_of(&self.scopes[i], name.text.as_str()).is_some() {
                self.resolutions.push(Resolution { line: name.line, column: name.column, depth });
                return ;
            }
            depth += 1;
        }
        assert(all.take(0) =~= Seq::empty());
    }

    /// Resolves a read of the variable.
    fn resolve_read(&mut self, name: &Token)
        ensures
            final(self)@ == old(self)@.read(name),
    {
        let count = self.scopes.len();
        if count > 0 {
            let found = status_of(&self.scopes[count - 1], name.text.as_str());
            if found == Some(false) {
                let diagnostic = Diagnostic {
                    kind: ErrorType::ResolverError,
                    line: name.line,
                    column: name.column,
                    message: String::from_str("Can't read local variable in its own initializer."),
                };
                self.diagnostics.push(diagnostic);
                assert(self@.diagnostics =~= old(self)@.diagnostics.push(diagnostic@));
            }
        }
        self.resolve_loc(name);
    }

    /// Resolves the statements, one after the other.
    pub fn resolve(&mut self, statements: &Vec<Stmt>)
        ensures
            final(self)@ == resolve_stmts(old(self)@, statements@),
        decreases statements,
    {
        let mut i: usize = 0;
        assert(statements@.take(0) =~= Seq::empty());
        while i < statements.len()
            invariant
                i <= statements@.len(),
                self@ == resolve_stmts(old(self)@, statements@.take(i as int)),
            decreases statements@.len() - i,
        {
            assert(statements@.take(i + 1).drop_last() =~= statements@.take(i as int));
            assert(statements@.take(i + 1).last() == statements@[i as int]);
            self.resolve_stmt(&statements[i]);
            i += 1;
        }
        assert(statements@.take(i as int) =~= statements@);
    }

    fn resolve_stmt(&mut self, stmt: &Stmt)
        ensures
            final(self)@ == resolve_stmt(old(self)@, stmt),
        decreases stmt,
    {
        match stmt {
            Stmt::Print { expr } => self.resolve_expr(expr),
            Stmt::Return { expr } => self.resolve_expr(expr),
            Stmt::Expression { expr } => self.resolve_expr(expr),
            Stmt::Var { name, expr } => {
                self.declare(name.as_str());
                self.resolve_expr(expr);
                self.define(name.as_str());
            },
            Stmt::While { condition, body } => {
                self.resolve_expr(condition);
                self.resolve_stmt(body);
            },
            Stmt::Conditional { condition, then_branch, else_branch } => {
                self.resolve_expr(condition);
                self.resolve_stmt(then_branch);
                match else_branch {
                    Some(branch) => self.resolve_stmt(branch),
                    None => {},
                }
            },
            Stmt::Block { statements } => {
                self.begin();
                self.resolve(statements);
                self.end();
            },
            Stmt::Function { name, params, body } => {
                match name {
                    Some(name) => self.define(name.as_str()),
                    None => {},
                }
                self.begin();
                let ghost opened = self@;
                let mut i: usize = 0;
                assert(params@.take(0) =~= Seq::empty());
                while i < params.len()
                    invariant
                        i <= params@.len(),
                        self@ == opened.enter_all(params@.take(i as int)),
                    decreases params@.len() - i,
                {
                    assert(params@.take(i + 1).drop_last() =~= params@.take(i as int));
                    assert(params@.take(i + 1).last() == params@[i as int]);
                    self.define(params[i].as_str());
                    i += 1;
                }
                assert(params@.take(i as int) =~= params@);
                self.resolve(body);
                self.end();
            },
            Stmt::Break { .. } => {},
        }
    }

    fn resolve_expr(&mut self, expr: &Expr)
        ensures
            final(self)@ == resolve_expr(old(self)@, expr),
        decreases expr,
    {
        match expr {
            Expr::Binary { left, right, .. } => {
                self.resolve_expr(left);
                self.resolve_expr(right);
            },
            Expr::Logical { left, right, .. } => {
                self.resolve_expr(left);
                self.resolve_expr(right);
            },
            Expr::Unary { right, .. } => self.resolve_expr(right),
            Expr::Grouping { expression } => self.resolve_expr(expression),
            Expr::Variable { name } => self.resolve_read(name),
            Expr::Assign { name, value } => {
                self.resolve_expr(value);
                self.resolve_loc(name);
            },
            Expr::Call { callee, arguments, .. } => {
                self.resolve_expr(callee);
                self.resolve(arguments);
            },
            Expr::Literal { .. } => {},
            Expr::Number { .. } => {},
        }
    }
}

/// Whether the scopes around a place are what they were: `after` has as many
/// scopes as `before`, and all but the innermost are unchanged.
pub open spec fn balanced(before: Resolved, after: Resolved) -> bool {
    &&& after.scopes.len() == before.scopes.len()
    &&& forall|i: int| 0 <= i < before.scopes.len() - 1 ==> after.scopes[i] == before.scopes[i]
}

/// Entering names changes the innermost scope only.
pub proof fn lemma_enter_all_is_balanced(state: Resolved, names: Seq<String>)
    ensures
        balanced(state, state.enter_all(names)),
    decreases names.len(),
{
    if names.len() > 0 {
        lemma_enter_all_is_balanced(state, names.drop_last());
    }
}

/// Resolving an expression leaves the scopes as they are, but for what it
/// enters in the innermost one.
pub proof fn lemma_expr_is_balanced(state: Resolved, expr: &Expr)
    ensures
        balanced(state, resolve_expr(state, expr)),
    decreases expr,
{
    match expr {
        Expr::Binary { left, right, .. } => {
            lemma_expr_is_balanced(state, &**left);
            lemma_expr_is_balanced(resolve_expr(state, &**left), &**right);
        },
        Expr::Logical { left, right, .. } => {
            lemma_expr_is_balanced(state, &**left);
            lemma_expr_is_balanced(resolve_expr(state, &**left), &**right);
        },
        Expr::Unary { right, .. } => lemma_expr_is_balanced(state, &**right),
        Expr::Grouping { expression } => lemma_expr_is_balanced(state, &**expression),
        Expr::Assign { value, .. } => lemma_expr_is_balanced(state, &**value),
        Expr::Call { callee, arguments, .. } => {
            lemma_expr_is_balanced(state, &**callee);
            lemma_stmts_are_balanced(resolve_expr(state, &**callee), arguments@);
        },
        _ => {},
    }
}

/// Resolving a statement leaves the scopes as they are, but for what it
/// declares in the innermost one: every scope that a block or a function
/// opens is closed again.
pub proof fn lemma_stmt_is_balanced(state: Resolved, stmt: &Stmt)
    ensures
        balanced(state, resolve_stmt(state, stmt)),
    decreases stmt,
{
    match stmt {
        Stmt::Print { expr } => lemma_expr_is_balanced(state, expr),
        Stmt::Return { expr } => lemma_expr_is_balanced(state, expr),
        Stmt::Expression { expr } => lemma_expr_is_balanced(state, expr),
        Stmt::Var { name, expr } => lemma_expr_is_balanced(state.enter(name@, false), expr),
        Stmt::While { condition, body } => {
            lemma_expr_is_balanced(state, condition);
            lemma_stmt_is_balanced(resolve_expr(state, condition), &**body);
        },
        Stmt::Conditional { condition, then_branch, else_branch } => {
            lemma_expr_is_balanced(state, condition);
            let first = resolve_stmt(resolve_expr(state, condition), &**then_branch);
            lemma_stmt_is_balanced(resolve_expr(state, condition), &**then_branch);
            match else_branch {
                Some(branch) => lemma_stmt_is_balanced(first, &**branch),
                None => {},
            }
        },
        Stmt::Block { statements } => {
            lemma_stmts_are_balanced(state.begin(), statements@);
        },
        Stmt::Function { name, params, body } => {
            let named = match name {
                Some(name) => state.enter(name@, true),
                None => state,
            };
            lemma_enter_all_is_balanced(named.begin(), params@);
            lemma_stmts_are_balanced(named.begin().enter_all(params@), body@);
        },
        Stmt::Break { .. } => {},
    }
}

/// Resolving statements leaves the scopes as they are, but for what the
/// statements declare in the innermost one.
pub proof fn lemma_stmts_are_balanced(state: Resolved, statements: Seq<Stmt>)
    ensures
        balanced(state, resolve_stmts(state, statements)),
    decreases statements,
{
    if statements.len() > 0 {
        lemma_stmts_are_balanced(state, statements.drop_last());
        lemma_stmt_is_balanced(resolve_stmts(state, statements.drop_last()), &statements.last());
    }
}

} // verus!
