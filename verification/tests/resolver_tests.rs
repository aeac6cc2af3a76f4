use lox::error::ErrorType;
use lox::parser::Parser;
use lox::resolver::{Resolution, Resolver};
use lox::scanner::Scanner;

/// The uses of local variables of a source as (name, line, depth), and the
/// errors of its resolution as (line, column, message).
fn resolve(source: &str) -> (Vec<(String, usize, usize)>, Vec<(usize, usize, String)>) {
    let tokens = Scanner::new().scan_tokens(String::from(source)).expect("the source scans");
    let names: Vec<((usize, usize), String)> =
        tokens.iter().map(|token| (token.location(), token.text.clone())).collect();
    let statements = Parser::new().parse(tokens).expect("the source parses");
    let mut resolver = Resolver::new();
    resolver.resolve(&statements);
    let uses = resolver
        .resolutions()
        .iter()
        .map(|found: &Resolution| {
            let name = names
                .iter()
                .find(|(place, _)| *place == (found.line, found.column))
                .map(|(_, text)| text.clone())
                .expect("a use stands on a name");
            (name, found.line, found.depth)
        })
        .collect();
    let errors = resolver
        .diagnostics()
        .iter()
        .map(|diagnostic| {
            assert_eq!(diagnostic.kind, ErrorType::ResolverError);
            (diagnostic.line, diagnostic.column, diagnostic.message.clone())
        })
        .collect();
    (uses, errors)
}

fn used(name: &str, line: usize, depth: usize) -> (String, usize, usize) {
    (String::from(name), line, depth)
}

#[test]
fn a_local_variable_cannot_be_read_in_its_own_initializer() {
    let (uses, errors) = resolve("{\n  var a = 1;\n  {\n    var a = a + 1;\n  }\n}");
    assert_eq!(
        errors,
        vec![(4, 13, String::from("Can't read local variable in its own initializer."))]
    );
    assert_eq!(uses, vec![used("a", 4, 0)]);
}

#[test]
fn a_global_variable_may_be_read_in_its_own_initializer() {
    let (uses, errors) = resolve("var a = 1; var a = a + 1; print a;");
    assert!(errors.is_empty());
    assert!(uses.is_empty());
}

#[test]
fn a_variable_may_be_read_once_it_is_defined() {
    let (uses, errors) = resolve("{ var a = 1; var b = a; var a = 2; print a + b; }");
    assert!(errors.is_empty());
    assert_eq!(uses, vec![used("a", 1, 0), used("a", 1, 0), used("b", 1, 0)]);
}

#[test]
fn uses_are_resolved_to_the_scope_of_their_declaration() {
    let (uses, errors) = resolve(
        "var g = 0;\n{\n  var a = 1;\n  {\n    var b = a;\n    fun f(c) {\n      g = a + b + c;\n      { f(c); }\n    }\n    f(b);\n  }\n  a = g;\n}",
    );
    assert!(errors.is_empty());
    assert_eq!(
        uses,
        vec![
            used("a", 5, 1),
            used("a", 7, 2),
            used("b", 7, 1),
            used("c", 7, 0),
            used("f", 8, 2),
            used("c", 8, 1),
            used("f", 10, 0),
            used("b", 10, 0),
            used("a", 12, 0),
        ]
    );
}

#[test]
fn the_clauses_of_a_for_loop_are_in_its_block() {
    let (uses, errors) = resolve("for (var i = 0; i < 3; i = i + 1) { print i; }");
    assert!(errors.is_empty());
    assert_eq!(
        uses,
        vec![used("i", 1, 0), used("i", 1, 2), used("i", 1, 1), used("i", 1, 1)]
    );
}

#[test]
fn a_function_without_name_is_a_scope_of_its_own() {
    let (uses, errors) = resolve("{ var n = 1; call(fun (x) { return x + n; }); }");
    assert!(errors.is_empty());
    assert_eq!(uses, vec![used("x", 1, 0), used("n", 1, 1)]);
}

#[test]
fn a_resolver_goes_on_from_what_it_has_seen() {
    let first = Parser::new()
        .parse(Scanner::new().scan_tokens(String::from("{ var a = a; }")).unwrap())
        .unwrap();
    let second = Parser::new()
        .parse(Scanner::new().scan_tokens(String::from("{ var b = 1; print b; }")).unwrap())
        .unwrap();
    let mut resolver = Resolver::new();
    assert!(resolver.resolutions().is_empty());
    assert!(resolver.diagnostics().is_empty());
    resolver.resolve(&first);
    resolver.resolve(&second);
    assert_eq!(resolver.diagnostics().len(), 1);
    assert_eq!(resolver.resolutions().len(), 2);
    assert_eq!(resolver.resolutions()[1].depth, 0);
}
