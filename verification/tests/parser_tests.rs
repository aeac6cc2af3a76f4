use lox::expressions::{Expr, Literal};
use lox::parser::Parser;
use lox::scanner::Scanner;
use lox::statements::Stmt;
use lox::tokens::TokenKind;

/// The statements of a source, whether all of it parsed, and the messages
/// of the diagnostics with their places.
fn parse(source: &str) -> (Vec<Stmt>, bool, Vec<(usize, usize, String)>) {
    let tokens = Scanner::new().scan_tokens(String::from(source)).expect("the source scans");
    let mut parser = Parser::new();
    let result = parser.parse(tokens);
    let reported = parser
        .diagnostics()
        .iter()
        .map(|diagnostic| (diagnostic.line, diagnostic.column, diagnostic.message.clone()))
        .collect();
    match result {
        Ok(statements) => (statements, true, reported),
        Err(statements) => (statements, false, reported),
    }
}

/// An expression written out with every operation in parentheses.
fn show(expr: &Expr) -> String {
    match expr {
        Expr::Binary { left, operator, right } | Expr::Logical { left, operator, right } => {
            format!("({} {:?} {})", show(left), operator.kind, show(right))
        }
        Expr::Grouping { expression } => format!("[{}]", show(expression)),
        Expr::Literal { value } => match value {
            Literal::String(text) => format!("{:?}", text),
            Literal::Boolean(truth) => format!("{}", truth),
            Literal::Nil => String::from("nil"),
            other => format!("{:?}", other),
        },
        Expr::Number { digits } => digits.clone(),
        Expr::Unary { operator, right } => format!("({:?} {})", operator.kind, show(right)),
        Expr::Variable { name } => name.text.clone(),
        Expr::Assign { name, value } => format!("({} := {})", name.text, show(value)),
        Expr::Call { callee, arguments, .. } => {
            let list: Vec<String> = arguments
                .iter()
                .map(|argument| match argument {
                    Stmt::Expression { expr } => show(expr),
                    other => format!("{:?}", other),
                })
                .collect();
            format!("{}({})", show(callee), list.join(", "))
        }
    }
}

fn expression(source: &str) -> String {
    let (statements, complete, reported) = parse(source);
    assert!(complete, "{:?}", reported);
    assert!(reported.is_empty());
    assert_eq!(statements.len(), 1);
    match &statements[0] {
        Stmt::Expression { expr } => show(expr),
        other => panic!("no expression statement: {:?}", other),
    }
}

#[test]
fn operators_bind_by_precedence() {
    assert_eq!(expression("1 + 2 * 3;"), "(1 Plus (2 Star 3))");
    assert_eq!(expression("1 * 2 + 3;"), "((1 Star 2) Plus 3)");
    assert_eq!(expression("1 < 2 == 3 > 4;"), "((1 Less 2) EqualEqual (3 Greater 4))");
    assert_eq!(
        expression("a or b and c == d;"),
        "(a Or (b And (c EqualEqual d)))"
    );
    assert_eq!(expression("-a * !b;"), "((Minus a) Star (Bang b))");
    assert_eq!(expression("(1 + 2) * 3;"), "([(1 Plus 2)] Star 3)");
}

#[test]
fn binary_operators_associate_to_the_left() {
    assert_eq!(expression("1 - 2 - 3;"), "((1 Minus 2) Minus 3)");
    assert_eq!(expression("8 / 4 / 2;"), "((8 Slash 4) Slash 2)");
    assert_eq!(expression("a or b or c;"), "((a Or b) Or c)");
    assert_eq!(expression("a and b and c;"), "((a And b) And c)");
    assert_eq!(expression("1 <= 2 >= 3;"), "((1 LessEqual 2) GreaterEqual 3)");
    assert_eq!(expression("1 != 2 != 3;"), "((1 BangEqual 2) BangEqual 3)");
}

#[test]
fn unary_and_assignment_associate_to_the_right() {
    assert_eq!(expression("!!-a;"), "(Bang (Bang (Minus a)))");
    assert_eq!(expression("a = b = 3;"), "(a := (b := 3))");
}

#[test]
fn compound_assignment_is_an_operation_on_the_variable() {
    assert_eq!(expression("x += 2;"), "(x := (x Plus 2))");
    assert_eq!(expression("x -= 2 * 3;"), "(x := (x Minus (2 Star 3)))");
    assert_eq!(expression("x *= y += 1;"), "(x := (x Star (y := (y Plus 1))))");
    let (statements, _, _) = parse("x += 2;");
    match &statements[0] {
        Stmt::Expression { expr: Expr::Assign { value, .. } } => match &**value {
            Expr::Binary { operator, .. } => {
                assert_eq!(operator.kind, TokenKind::Plus);
                assert_eq!((operator.line, operator.column), (1, 4));
            }
            other => panic!("no operation: {:?}", other),
        },
        other => panic!("no assignment: {:?}", other),
    }
}

#[test]
fn calls_chain_and_take_statements_as_arguments() {
    assert_eq!(expression("f();"), "f()");
    assert_eq!(expression("f(1, g(2), x)(3);"), "f(1, g(2), x)(3)");
    assert_eq!(expression("f(a = 1);"), "f((a := 1))");
    let (statements, complete, _) = parse("f(fun (x) { print x; });");
    assert!(complete);
    match &statements[0] {
        Stmt::Expression { expr: Expr::Call { arguments, paren, .. } } => {
            assert_eq!(paren.kind, TokenKind::RightParen);
            match &arguments[0] {
                Stmt::Function { name, params, body } => {
                    assert!(name.is_none());
                    assert_eq!(params, &vec![String::from("x")]);
                    assert_eq!(body.len(), 1);
                }
                other => panic!("no function: {:?}", other),
            }
        }
        other => panic!("no call: {:?}", other),
    }
}

#[test]
fn literals_are_read() {
    assert_eq!(expression("\"hi\";"), "\"hi\"");
    assert_eq!(expression("true;"), "true");
    assert_eq!(expression("false;"), "false");
    assert_eq!(expression("nil;"), "nil");
    assert_eq!(expression("12.5;"), "12.5");
}

#[test]
fn statements_are_read() {
    let source = "var a; var b = 1; print a; { a = b; } if (a) print 1; else print 2; while (a) break; return a; fun f(x, y) { return x; }";
    let (statements, complete, reported) = parse(source);
    let break_column = source.find("break").unwrap() + 5;
    assert!(complete, "{:?}", reported);
    assert_eq!(statements.len(), 8);
    assert!(matches!(&statements[0], Stmt::Var { name, expr: Expr::Literal { value: Literal::Nil } } if name == "a"));
    assert!(matches!(&statements[1], Stmt::Var { name, expr: Expr::Number { digits } } if name == "b" && digits == "1"));
    assert!(matches!(&statements[2], Stmt::Print { .. }));
    assert!(matches!(&statements[3], Stmt::Block { statements } if statements.len() == 1));
    assert!(matches!(&statements[4], Stmt::Conditional { else_branch: Some(_), .. }));
    match &statements[5] {
        Stmt::While { body, .. } => {
            assert!(matches!(&**body, Stmt::Break { line: 1, column } if *column == break_column))
        }
        other => panic!("no loop: {:?}", other),
    }
    assert!(matches!(&statements[6], Stmt::Return { .. }));
    match &statements[7] {
        Stmt::Function { name, params, body } => {
            assert_eq!(name.as_deref(), Some("f"));
            assert_eq!(params, &vec![String::from("x"), String::from("y")]);
            assert_eq!(body.len(), 1);
        }
        other => panic!("no function: {:?}", other),
    }
}

#[test]
fn a_for_loop_becomes_a_while_loop() {
    let (statements, complete, _) = parse("for (var i = 0; i < 3; i = i + 1) print i;");
    assert!(complete);
    match &statements[0] {
        Stmt::Block { statements } => {
            assert_eq!(statements.len(), 2);
            assert!(matches!(&statements[0], Stmt::Var { name, .. } if name == "i"));
            match &statements[1] {
                Stmt::While { condition, body } => {
                    assert_eq!(show(condition), "(i Less 3)");
                    match &**body {
                        Stmt::Block { statements } => {
                            assert_eq!(statements.len(), 2);
                            assert!(matches!(&statements[0], Stmt::Print { .. }));
                            assert!(matches!(&statements[1], Stmt::Expression { expr } if show(expr) == "(i := (i Plus 1))"));
                        }
                        other => panic!("no block: {:?}", other),
                    }
                }
                other => panic!("no loop: {:?}", other),
            }
        }
        other => panic!("no block: {:?}", other),
    }
}

#[test]
fn a_for_loop_may_start_with_an_expression() {
    let (statements, complete, reported) = parse("for (i = 0; i < 3;) i = i + 1;");
    assert!(complete, "{:?}", reported);
    match &statements[0] {
        Stmt::Block { statements } => {
            assert!(matches!(&statements[0], Stmt::Expression { expr } if show(expr) == "(i := 0)"));
            match &statements[1] {
                Stmt::While { body, .. } => assert!(matches!(&**body, Stmt::Expression { .. })),
                other => panic!("no loop: {:?}", other),
            }
        }
        other => panic!("no block: {:?}", other),
    }
}

#[test]
fn a_bare_for_loop_runs_on_true() {
    let (statements, complete, reported) = parse("for (;;) print 1;");
    assert!(complete, "{:?}", reported);
    match &statements[0] {
        Stmt::While { condition, body } => {
            assert!(matches!(condition, Expr::Literal { value: Literal::Boolean(true) }));
            assert!(matches!(&**body, Stmt::Print { .. }));
        }
        other => panic!("no loop: {:?}", other),
    }
}

#[test]
fn a_missing_semicolon_is_reported_at_the_token_before() {
    let (statements, complete, reported) = parse("print 1; print 2 print 3;");
    assert!(!complete);
    assert_eq!(statements.len(), 1);
    assert_eq!(reported, vec![(1, 16, String::from("Expected ';' after statement."))]);
}

#[test]
fn the_parser_goes_on_after_an_error() {
    let (statements, complete, reported) = parse("var = 1; print 2; var 3; print (4;");
    assert!(!complete);
    assert!(statements.is_empty());
    let messages: Vec<&str> = reported.iter().map(|entry| entry.2.as_str()).collect();
    assert_eq!(
        messages,
        vec!["Expected identifier.", "Expected identifier.", "Expected ')' after expression."]
    );
    assert_eq!((reported[0].0, reported[0].1), (1, 5));
    assert_eq!((reported[1].0, reported[1].1), (1, 23));
    assert_eq!((reported[2].0, reported[2].1), (1, 34));
}

#[test]
fn statements_before_the_first_error_are_kept() {
    let (statements, complete, reported) = parse("print 1; var a = 2; + ; print 3;");
    assert!(!complete);
    assert_eq!(statements.len(), 2);
    assert_eq!(reported, vec![(1, 21, String::from("Expected expression."))]);
}

#[test]
fn each_construct_reports_what_it_misses() {
    let cases = [
        ("1 + 2", "Expect ';' after expression."),
        ("return 1", "Expected ';' after return value."),
        ("break", "Expected ';' after statement."),
        ("var a = 1", "Expected ';' after expression."),
        ("var a", "Expected ';' after expression."),
        ("if a) print 1;", "Expected '(' after 'if'."),
        ("if (a print 1;", "Expected ')' after condition."),
        ("while a) print 1;", "Expected '(' after 'while'."),
        ("while (a print 1;", "Expected ')' after condition."),
        ("for var i = 0;;) print 1;", "Expected '(' after 'for'."),
        ("for (;; i = 1 print 1;", "Expected ')' after loop increment."),
        ("for (; i < 1) print 1;", "Expected ';' after expression."),
        ("for (print 1; ; ) print 2;", "Expected expression."),
        ("for ({ } ; ; ) print 2;", "Expected expression."),
        ("for (i = 0 ; ) print 2;", "Expected expression."),
        ("{ print 1;", "Expected '}' after block."),
        ("fun f { }", "Expected '(' after function name."),
        ("fun f(a b) { }", "Expected ')' or ',' after parameter."),
        ("fun f(a, ", "Expected ')' after parameters."),
        ("fun f(a) print a;", "Expected block after function declaration."),
        ("f(1 2);", "Expected ')' or ',' after argument."),
        ("f(1, 2", "Expected ')' or ',' after argument."),
        ("f(", "Expected ')' after arguments."),
        ("f(1,", "Expected expression."),
        ("f(1,);", "Expected expression."),
        ("f(,);", "Expected expression."),
        ("f(1,,2);", "Expected expression."),
        ("fun f(a,) { }", "Expected identifier."),
        ("fun f(,) { }", "Expected identifier."),
        ("fun f(a,,b) { }", "Expected identifier."),
        ("fun f(1) { }", "Expected identifier."),
        ("(1 + 2;", "Expected ')' after expression."),
        ("print ;", "Expected expression."),
        ("class", "Expected expression."),
    ];
    for (source, message) in cases {
        let (_, complete, reported) = parse(source);
        assert!(!complete, "{}", source);
        assert!(!reported.is_empty(), "{}", source);
        assert_eq!(reported[0].2, message, "{}", source);
    }
}

#[test]
fn a_comma_must_be_followed_by_an_argument() {
    let (statements, complete, reported) = parse("print 0; f(1,); print 2;");
    assert!(!complete);
    assert_eq!(statements.len(), 1);
    assert_eq!(reported, vec![(1, 14, String::from("Expected expression."))]);
    let (statements, complete, reported) = parse("f(); g(1); h(1, 2);");
    assert!(complete);
    assert!(reported.is_empty());
    assert_eq!(statements.len(), 3);
}

#[test]
fn a_comma_must_be_followed_by_a_parameter() {
    let (statements, complete, reported) = parse("fun f(a,) { }");
    assert!(!complete);
    assert!(statements.is_empty());
    assert_eq!(reported[0], (1, 9, String::from("Expected identifier.")));
    let (statements, complete, reported) = parse("fun f() { } fun g(a) { } fun h(a, b) { }");
    assert!(complete);
    assert!(reported.is_empty());
    assert_eq!(statements.len(), 3);
}

#[test]
fn more_than_255_arguments_are_reported() {
    let mut source = String::from("f(");
    for i in 0..256 {
        if i > 0 {
            source.push_str(", ");
        }
        source.push_str("1");
    }
    source.push_str("); print 2; print (;");
    let (statements, complete, reported) = parse(&format!("print 1; {}", source));
    assert!(!complete);
    assert_eq!(statements.len(), 1);
    assert_eq!(reported.len(), 2);
    assert_eq!(reported[0].2, "Can not have more than 255 arguments.");
    assert_eq!(reported[1].2, "Expected expression.");
    let within = source.replacen(", 1", "", 1);
    let (statements, complete, reported) = parse(&within.replace(" print (;", ""));
    assert!(complete, "{:?}", reported);
    assert_eq!(statements.len(), 2);
    match &statements[0] {
        Stmt::Expression { expr: Expr::Call { arguments, .. } } => assert_eq!(arguments.len(), 255),
        other => panic!("no call: {:?}", other),
    }
}

#[test]
fn more_than_255_parameters_are_reported() {
    let mut source = String::from("fun f(");
    for i in 0..256 {
        if i > 0 {
            source.push_str(", ");
        }
        source.push_str(&format!("p{}", i));
    }
    source.push_str(") { }");
    let (statements, complete, reported) = parse(&source);
    assert!(!complete);
    assert!(statements.is_empty());
    assert_eq!(reported.len(), 1);
    assert_eq!(reported[0].2, "Can not have more than 255 parameters.");
    let (statements, complete, reported) = parse(&source.replace(", p255", ""));
    assert!(complete, "{:?}", reported);
    match &statements[0] {
        Stmt::Function { params, .. } => assert_eq!(params.len(), 255),
        other => panic!("no function: {:?}", other),
    }
}

#[test]
fn what_is_no_variable_cannot_be_assigned() {
    let (_, complete, reported) = parse("1 = 2;");
    assert!(!complete);
    assert_eq!(reported, vec![(1, 1, String::from("Expect ';' after expression."))]);
}

#[test]
fn tokens_without_eof_are_parsed_to_their_end() {
    let mut tokens = Scanner::new().scan_tokens(String::from("print 1;")).unwrap();
    tokens.pop();
    let mut parser = Parser::new();
    let statements = parser.parse(tokens).unwrap();
    assert_eq!(statements.len(), 1);
    let mut parser = Parser::new();
    assert!(parser.parse(Vec::new()).unwrap().is_empty());
}

#[test]
fn a_parser_forgets_its_last_run() {
    let mut parser = Parser::new();
    let tokens = Scanner::new().scan_tokens(String::from("print ;")).unwrap();
    assert!(parser.parse(tokens).is_err());
    assert_eq!(parser.diagnostics().len(), 1);
    assert_eq!(parser.diagnostics()[0].kind, lox::error::ErrorType::ParserError);
    let tokens = Scanner::new().scan_tokens(String::from("print 1;")).unwrap();
    assert!(parser.parse(tokens).is_ok());
    assert!(parser.diagnostics().is_empty());
}

#[test]
fn every_parser_error_stands_on_a_token() {
    let sources = [
        "print 1 print 2;",
        "var = 3;\n  if x) y;\nfun (a b) { }",
        "f(1 2); {\n print (1;\n",
        "for (;;",
        "a + ;\n\n  * b;",
    ];
    for source in sources {
        let tokens = Scanner::new().scan_tokens(String::from(source)).unwrap();
        let places: Vec<(usize, usize)> = tokens.iter().map(|token| token.location()).collect();
        let mut parser = Parser::new();
        assert!(parser.parse(tokens).is_err(), "{}", source);
        assert!(!parser.diagnostics().is_empty());
        for diagnostic in parser.diagnostics() {
            assert!(places.contains(&(diagnostic.line, diagnostic.column)), "{}: {:?}", source, diagnostic);
        }
    }
}
