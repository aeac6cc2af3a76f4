use lox::error::Diagnostic;
use lox::expressions::Literal;
use lox::interpreter::{Action, Interpreter, Reply};
use lox::machine::Operator;
use lox::parser::Parser;
use lox::scanner::Scanner;

/// What a run printed, and how it ended.
struct Run {
    printed: Vec<String>,
    value: Option<Literal>,
    error: Option<Diagnostic>,
    operations: usize,
}

/// Runs a program to its end, serving the interpreter as a host would.
fn run_with(source: &str, repl: bool) -> Run {
    let tokens = Scanner::new().scan_tokens(String::from(source)).expect("the source scans");
    let mut parser = Parser::new();
    let statements = parser.parse(tokens).expect("the source parses");
    let mut interpreter = Interpreter::new(repl);
    interpreter.interpret(&statements);
    let mut run = Run { printed: Vec::new(), value: None, error: None, operations: 0 };
    let mut reply = Reply::Nothing;
    loop {
        assert!(interpreter.accepts(&reply));
        match interpreter.run(reply, 1000) {
            Action::Running => reply = Reply::Nothing,
            Action::Number { digits } => {
                reply = Reply::Number(digits.parse::<f64>().unwrap().to_bits());
            }
            Action::Arithmetic { operator, left, right } => {
                run.operations += 1;
                let (a, b) = (f64::from_bits(left), f64::from_bits(right));
                let result = match operator {
                    Operator::Add => a + b,
                    Operator::Subtract => a - b,
                    Operator::Multiply => a * b,
                    Operator::Divide => a / b,
                };
                reply = Reply::Number(result.to_bits());
            }
            Action::Text { number } => {
                reply = Reply::Text(format!("{}", f64::from_bits(number)));
            }
            Action::Clock => reply = Reply::Number(1.5f64.to_bits()),
            Action::Print { text } => {
                run.printed.push(text);
                reply = Reply::Nothing;
            }
            Action::Finished { value } => {
                run.value = Some(value);
                return run;
            }
            Action::Failed { diagnostic } => {
                run.error = Some(diagnostic);
                return run;
            }
        }
    }
}

fn execute(source: &str) -> Run {
    run_with(source, false)
}

fn lines(run: &Run) -> Vec<&str> {
    run.printed.iter().map(|line| line.as_str()).collect()
}

#[test]
fn prints_a_sum() {
    let run = execute("print 1 + 2;");
    assert_eq!(lines(&run), vec!["3"]);
    assert!(run.error.is_none());
}

#[test]
fn runs_a_for_loop() {
    let run = execute(
        "var a = 0;\nvar b = 1;\nfor (var i = 0; i < 5; i = i + 1) { print a; var t = a + b; a = b; b = t; }",
    );
    assert_eq!(lines(&run), vec!["0", "1", "1", "2", "3"]);
    assert!(run.error.is_none());
}

#[test]
fn counter_keeps_its_cell() {
    let run = execute(
        "fun makeCounter() { var n = 0; fun inc() { n = n + 1; return n; } return inc; }\nvar c = makeCounter(); print c(); print c(); print c();",
    );
    assert_eq!(lines(&run), vec!["1", "2", "3"]);
    assert!(run.error.is_none());
}

#[test]
fn joins_strings_and_numbers() {
    let run = execute("print \"a\" + \"b\"; print \"num=\" + 7;");
    assert_eq!(lines(&run), vec!["ab", "num=7"]);
}

#[test]
fn breaks_out_of_a_loop() {
    let run = execute(
        "var i = 0; while (i < 3) { if (i == 2) break; print i; i = i + 1; } print \"done\";",
    );
    assert_eq!(lines(&run), vec!["0", "1", "done"]);
    assert!(run.error.is_none());
}

#[test]
fn divides_by_zero_only_when_both_are_zero() {
    let run_one = execute("print 1/0;");
    assert_eq!(lines(&run_one), vec!["inf"]);
    assert!(run_one.error.is_none());
    let run_zero = execute("print 0/0;");
    assert!(run_zero.printed.is_empty());
    let error = run_zero.error.expect("0/0 fails");
    assert_eq!(error.message, "Can not divide by 0");
    assert_eq!((error.line, error.column), (1, 8));
}

fn failure(run: &Run) -> (usize, usize, &str) {
    let error = run.error.as_ref().expect("the run fails");
    assert_eq!(error.kind, lox::error::ErrorType::RuntimeError);
    (error.line, error.column, error.message.as_str())
}

#[test]
fn only_nil_and_false_are_falsey() {
    let run = execute(
        "if (nil) print 1; else print 2; if (false) print 3; else print 4; if (0) print 5; if (\"\") print 6; if (true) print 7; if (clock) print 8;",
    );
    assert_eq!(lines(&run), vec!["2", "4", "5", "6", "7", "8"]);
    assert!(!Literal::Nil.is_truthy());
    assert!(!Literal::Boolean(false).is_truthy());
    assert!(Literal::Boolean(true).is_truthy());
    assert!(Literal::Number(0).is_truthy());
    assert!(Literal::Number(0f64.to_bits()).is_truthy());
    assert!(Literal::String(String::new()).is_truthy());
}

#[test]
fn and_does_not_evaluate_what_it_does_not_need() {
    let run = execute("fun f() { print \"called\"; return true; } print false and f(); print nil and f();");
    assert_eq!(lines(&run), vec!["false", "nil"]);
    let run = execute("fun f() { print \"called\"; return 7; } print true and f();");
    assert_eq!(lines(&run), vec!["called", "7"]);
}

#[test]
fn or_does_not_evaluate_what_it_does_not_need() {
    let run = execute("fun f() { print \"called\"; return true; } print true or f(); print 1 or f();");
    assert_eq!(lines(&run), vec!["true", "1"]);
    let run = execute("fun f() { print \"called\"; return 7; } print false or f();");
    assert_eq!(lines(&run), vec!["called", "7"]);
}

#[test]
fn a_skipped_operand_asks_nothing_of_the_host() {
    let run = execute("var x = false and 1 + 2; var y = true or 3 * 4;");
    assert_eq!(run.operations, 0);
    let run = execute("var x = true and 1 + 2; var y = false or 3 * 4;");
    assert_eq!(run.operations, 2);
}

#[test]
fn an_inner_variable_shadows_and_an_assignment_reaches_out() {
    let run = execute("var x = 0; { var x = 1; print x; } print x; { x = 2; } print x;");
    assert_eq!(lines(&run), vec!["1", "0", "2"]);
}

#[test]
fn a_function_sees_the_scope_of_its_declaration() {
    let run = execute(
        "var x = \"global\"; fun show() { print x; } { var x = \"local\"; show(); } fun f() { var x = \"inner\"; show(); } f();",
    );
    assert_eq!(lines(&run), vec!["global", "global"]);
}

#[test]
fn counters_do_not_share_their_cells() {
    let run = execute(
        "fun makeCounter() { var n = 0; fun inc() { n = n + 1; return n; } return inc; } var a = makeCounter(); var b = makeCounter(); print a(); print a(); print b(); var n = 100; print a();",
    );
    assert_eq!(lines(&run), vec!["1", "2", "1", "3"]);
}

#[test]
fn a_call_with_the_wrong_number_of_arguments_fails() {
    let run_one = execute("fun f(a, b) { return a; }\nf(1);");
    assert_eq!(failure(&run_one), (2, 4, "Expected 2 arguments but got 1."));
    let run_three = execute("fun f(a, b) { return a; } f(1, 2, 3);");
    assert_eq!(failure(&run_three).2, "Expected 2 arguments but got 3.");
    let run_clock = execute("clock(1);");
    assert_eq!(failure(&run_clock).2, "Expected 0 arguments but got 1.");
    let mut source = String::from("fun f() { } f(");
    for i in 0..12 {
        if i > 0 {
            source.push_str(", ");
        }
        source.push_str("nil");
    }
    source.push_str(");");
    assert_eq!(failure(&execute(&source)).2, "Expected 0 arguments but got 12.");
}

#[test]
fn arguments_are_evaluated_before_the_count_is_checked() {
    let run = execute("fun f() { } fun g() { print \"g\"; return 1; } f(g());");
    assert_eq!(lines(&run), vec!["g"]);
    assert_eq!(failure(&run).2, "Expected 0 arguments but got 1.");
}

#[test]
fn only_functions_can_be_called() {
    let run = execute("var x = 1;\n  x(2);");
    assert_eq!(failure(&run), (2, 6, "Can only perform calls on functions and classes."));
    let run = execute("fun g() { print \"g\"; } \"text\"(g());");
    assert!(run.printed.is_empty());
}

#[test]
fn an_unknown_name_fails_where_it_stands() {
    let run_read = execute("print 1;\nprint missing;");
    assert_eq!(lines(&run_read), vec!["1"]);
    assert_eq!(failure(&run_read), (2, 13, "Undefined variable 'missing'"));
    let run_write = execute("missing = 1;");
    assert_eq!(failure(&run_write), (1, 7, "Undefined variable 'missing'"));
}

#[test]
fn the_value_is_evaluated_before_the_name_is_looked_up() {
    let run = execute("fun f() { print \"f\"; return 1; } missing = f();");
    assert_eq!(lines(&run), vec!["f"]);
    assert_eq!(failure(&run).2, "Undefined variable 'missing'");
}

#[test]
fn unary_operators_work() {
    let run = execute("print -3; print --3; print !true; print !false; print !nil; print !0; print !\"a\"; print -0;");
    assert_eq!(lines(&run), vec!["-3", "3", "false", "true", "true", "false", "false", "-0"]);
    let run = execute("print -\"a\";");
    assert_eq!(failure(&run), (1, 7, "Operator '-' can only be applied to numbers."));
}

#[test]
fn arithmetic_works() {
    let run = execute("print 7 - 2; print 3 * 4; print 9 / 2; print 1 + 2 * 3 - 4 / 2; print 0.1 + 0.2; var x = 5; x += 2; x *= 3; x -= 1; print x;");
    assert_eq!(lines(&run), vec!["5", "12", "4.5", "5", "0.30000000000000004", "20"]);
}

#[test]
fn arithmetic_needs_numbers() {
    let cases = [
        ("1 - \"a\";", "Operator '-' can only be applied to numbers"),
        ("nil * 2;", "Operator '*' can only be applied to numbers"),
        ("true / 2;", "Operator '/' can only be applied to numbers"),
        ("1 > \"a\";", "Operator '>' can only be applied to numbers"),
        ("1 >= nil;", "Operator '>' can only be applied to numbers"),
        ("\"a\" < 1;", "Operator '<' can only be applied to numbers"),
        ("\"a\" <= \"b\";", "Operator '<' can only be applied to numbers"),
        ("1 + nil;", "Operator '+' can only be applied to numbers or strings"),
        ("true + \"a\";", "Operator '+' can only be applied to numbers or strings"),
    ];
    for (source, message) in cases {
        assert_eq!(failure(&execute(source)).2, message, "{}", source);
    }
}

#[test]
fn comparisons_work() {
    let run = execute("print 1 < 2; print 2 < 1; print 2 <= 2; print 3 <= 2; print 2 > 1; print 1 > 2; print 2 >= 2; print 1 >= 2; print -1 < 0; print -2 < -1; print 0 < -0; print 0 >= -0;");
    assert_eq!(
        lines(&run),
        vec!["true", "false", "true", "false", "true", "false", "true", "false", "true", "true", "false", "true"]
    );
}

#[test]
fn equality_follows_its_table() {
    let run = execute(
        "print 1 == 1; print 1 == 2; print \"a\" == \"a\"; print \"a\" == \"b\"; print true == true; print true == false; print nil == nil; print nil == 1; print 1 == nil; print nil == false; print 1 == \"1\"; print clock == clock;",
    );
    assert_eq!(
        lines(&run),
        vec!["true", "false", "true", "false", "true", "false", "true", "false", "false", "false", "false", "false"]
    );
    let run = execute(
        "print 1 == true; print 1 == false; print true == 0; print false == 0; print \"a\" == true; print false == \"a\";",
    );
    assert_eq!(lines(&run), vec!["true", "false", "true", "false", "true", "false"]);
    let run = execute(
        "print 1 != 1; print 1 != 2; print nil != nil; print nil != 1; print 1 != true; print false != \"a\"; print \"a\" != \"a\";",
    );
    assert_eq!(lines(&run), vec!["false", "true", "false", "true", "false", "true", "false"]);
}

#[test]
fn a_number_joins_a_string_from_either_side() {
    let run = execute("print 1.5 + \"x\"; print \"x\" + 2; print \"a\" + 1 + 2; print 1 + 2 + \"a\";");
    assert_eq!(lines(&run), vec!["1.5x", "x2", "a12", "3a"]);
}

#[test]
fn values_print_as_their_text() {
    let run = execute("print nil; print true; print false; print \"text\"; print 3; print 3.5; print clock; fun f() { } print f;");
    assert_eq!(lines(&run), vec!["nil", "true", "false", "text", "3", "3.5", "<fn>", "<fn>"]);
    assert_eq!(Literal::Nil.text(), "nil");
    assert_eq!(Literal::Boolean(true).text(), "true");
    assert_eq!(Literal::Boolean(false).text(), "false");
    assert_eq!(Literal::String(String::from("raw")).text(), "raw");
}

#[test]
fn break_needs_a_loop() {
    let run = execute("print 1;\n  break;");
    assert_eq!(lines(&run), vec!["1"]);
    assert_eq!(failure(&run), (2, 7, "Can not break outside of a loop."));
    let run = execute("while (false) { } break;");
    assert_eq!(failure(&run).2, "Can not break outside of a loop.");
}

#[test]
fn break_leaves_the_innermost_loop_only() {
    let run = execute(
        "var i = 0; while (i < 2) { var j = 0; while (true) { if (j == 2) break; print i + \":\" + j; j = j + 1; } i = i + 1; } print \"end\";",
    );
    assert_eq!(lines(&run), vec!["0:0", "0:1", "1:0", "1:1", "end"]);
}

#[test]
fn break_brings_the_scope_of_the_loop_back() {
    let run = execute("var x = 1; while (true) { var x = 2; { var x = 3; break; } } print x;");
    assert_eq!(lines(&run), vec!["1"]);
}

#[test]
fn return_leaves_the_innermost_call_only() {
    let run = execute(
        "fun inner() { while (true) { { return \"in\"; } } } fun outer() { var got = inner(); print got; return \"out\"; print \"never\"; } print outer();",
    );
    assert_eq!(lines(&run), vec!["in", "out"]);
}

#[test]
fn return_brings_the_scope_of_the_caller_back() {
    let run = execute("var x = \"mine\"; fun f() { var x = \"yours\"; { var x = \"deep\"; return 1; } } f(); print x;");
    assert_eq!(lines(&run), vec!["mine"]);
}

#[test]
fn a_return_amid_an_expression_leaves_no_value_behind() {
    let run = execute("fun g(a, b) { return a + b; } fun f() { return 10 + g(1, return 5;); } print 1 + f();");
    assert_eq!(lines(&run), vec!["6"]);
}

#[test]
fn return_outside_a_call_ends_the_run() {
    let run = execute("print 1; { return \"over\"; } print 2;");
    assert_eq!(lines(&run), vec!["1"]);
    assert!(matches!(run.value, Some(Literal::String(ref text)) if text == "over"));
}

#[test]
fn functions_recurse() {
    let run = execute("fun fib(n) { if (n < 2) return n; return fib(n - 1) + fib(n - 2); } print fib(15);");
    assert_eq!(lines(&run), vec!["610"]);
}

#[test]
fn a_call_without_return_gives_its_last_expression() {
    let run = execute("fun f() { 1; 2; } fun g() { print 0; } fun h() { } print f(); print g(); print h();");
    assert_eq!(lines(&run), vec!["2", "0", "nil", "nil"]);
}

#[test]
fn a_function_can_be_an_argument() {
    let run = execute("fun twice(f) { f(1); f(2); } twice(fun (x) { print x * 10; });");
    assert_eq!(lines(&run), vec!["10", "20"]);
}

#[test]
fn arguments_are_evaluated_from_the_left() {
    let run = execute("fun say(x) { print x; return x; } fun f(a, b, c) { print a + b + c; } f(say(1), say(2), say(3));");
    assert_eq!(lines(&run), vec!["1", "2", "3", "6"]);
}

#[test]
fn operands_are_evaluated_from_the_left() {
    let run = execute("fun say(x) { print x; return x; } print say(1) - say(2) * say(3);");
    assert_eq!(lines(&run), vec!["1", "2", "3", "-5"]);
}

#[test]
fn a_run_gives_its_last_expression() {
    let run = execute("1; \"two\"; var x = 3;");
    assert!(matches!(run.value, Some(Literal::String(ref text)) if text == "two"));
    let run = execute("var x = 3;");
    assert!(matches!(run.value, Some(Literal::Nil)));
    let run = execute("");
    assert!(matches!(run.value, Some(Literal::Nil)));
    let run = execute("1 + 2;");
    assert!(matches!(run.value, Some(Literal::Number(bits)) if f64::from_bits(bits) == 3.0));
}

#[test]
fn the_prompt_echoes_expressions() {
    let run = run_with("1 + 2; var x = \"a\"; x; print x;", true);
    assert_eq!(lines(&run), vec!["3", "a", "a"]);
    let run = run_with("var x = 1;", true);
    assert!(run.printed.is_empty());
}

#[test]
fn clock_gives_what_the_host_gives() {
    let run = execute("print clock(); print clock() + 1;");
    assert_eq!(lines(&run), vec!["1.5", "2.5"]);
}

#[test]
fn a_declared_variable_starts_as_nil() {
    let run = execute("var x; print x; var x = 2; print x;");
    assert_eq!(lines(&run), vec!["nil", "2"]);
}

#[test]
fn a_loop_without_end_stops_at_the_budget() {
    let tokens = Scanner::new().scan_tokens(String::from("while (true) { }")).unwrap();
    let statements = Parser::new().parse(tokens).unwrap();
    let mut interpreter = Interpreter::new(false);
    interpreter.interpret(&statements);
    for _ in 0..10 {
        assert!(matches!(interpreter.run(Reply::Nothing, 100), Action::Running));
    }
    assert!(matches!(interpreter.run(Reply::Nothing, 0), Action::Running));
}

#[test]
fn definitions_outlive_a_run_and_an_error() {
    let first = Parser::new()
        .parse(Scanner::new().scan_tokens(String::from("var x = 1; fun f() { return x; } { var y = 2; missing; }")).unwrap())
        .unwrap();
    let second = Parser::new()
        .parse(Scanner::new().scan_tokens(String::from("x = 5; f();")).unwrap())
        .unwrap();
    let mut interpreter = Interpreter::new(false);
    interpreter.interpret(&first);
    let mut reply = Reply::Nothing;
    loop {
        match interpreter.run(reply, 50) {
            Action::Number { digits } => reply = Reply::Number(digits.parse::<f64>().unwrap().to_bits()),
            Action::Failed { diagnostic } => {
                assert_eq!(diagnostic.message, "Undefined variable 'missing'");
                break;
            }
            Action::Running => reply = Reply::Nothing,
            other => panic!("{:?}", other),
        }
    }
    interpreter.interpret(&second);
    let mut reply = Reply::Nothing;
    loop {
        match interpreter.run(reply, 50) {
            Action::Number { digits } => reply = Reply::Number(digits.parse::<f64>().unwrap().to_bits()),
            Action::Finished { value } => {
                assert!(matches!(value, Literal::Number(bits) if f64::from_bits(bits) == 5.0));
                break;
            }
            Action::Running => reply = Reply::Nothing,
            other => panic!("{:?}", other),
        }
    }
}

#[test]
fn an_expression_can_be_evaluated_by_itself() {
    let tokens = Scanner::new().scan_tokens(String::from("\"a\" + \"b\";")).unwrap();
    let statements = Parser::new().parse(tokens).unwrap();
    let expr = match &statements[0] {
        lox::statements::Stmt::Expression { expr } => expr,
        other => panic!("{:?}", other),
    };
    let mut interpreter = Interpreter::new(true);
    interpreter.evaluate(expr);
    match interpreter.run(Reply::Nothing, 100) {
        Action::Finished { value } => assert!(matches!(value, Literal::String(ref text) if text == "ab")),
        other => panic!("{:?}", other),
    }
}

#[test]
fn the_interpreter_tells_what_it_waits_for() {
    let tokens = Scanner::new().scan_tokens(String::from("print 1 + \"a\";")).unwrap();
    let statements = Parser::new().parse(tokens).unwrap();
    let mut interpreter = Interpreter::new(false);
    interpreter.interpret(&statements);
    assert_eq!(interpreter.awaits(), lox::machine::Awaiting::Nothing);
    assert!(interpreter.accepts(&Reply::Nothing));
    assert!(!interpreter.accepts(&Reply::Number(0)));
    assert!(matches!(interpreter.run(Reply::Nothing, 100), Action::Number { ref digits } if digits == "1"));
    assert_eq!(interpreter.awaits(), lox::machine::Awaiting::Number);
    assert!(!interpreter.accepts(&Reply::Nothing));
    assert!(!interpreter.accepts(&Reply::Text(String::new())));
    let one = 1f64.to_bits();
    assert!(matches!(interpreter.run(Reply::Number(one), 100), Action::Text { number } if number == one));
    assert_eq!(interpreter.awaits(), lox::machine::Awaiting::Text);
    assert!(interpreter.accepts(&Reply::Text(String::from("1"))));
    assert!(matches!(interpreter.run(Reply::Text(String::from("one")), 100), Action::Print { ref text } if text == "onea"));
    assert!(matches!(interpreter.run(Reply::Nothing, 100), Action::Finished { .. }));
}

/// Runs the interpreter to the end of what it has to do.
fn finish<'a>(interpreter: &mut Interpreter<'a>) -> Result<Literal, Diagnostic> {
    let mut reply = Reply::Nothing;
    loop {
        match interpreter.run(reply, 100) {
            Action::Running | Action::Print { .. } => reply = Reply::Nothing,
            Action::Number { digits } => {
                reply = Reply::Number(digits.parse::<f64>().unwrap().to_bits());
            }
            Action::Arithmetic { left, right, .. } => {
                reply = Reply::Number((f64::from_bits(left) + f64::from_bits(right)).to_bits());
            }
            Action::Text { number } => reply = Reply::Text(format!("{}", f64::from_bits(number))),
            Action::Clock => reply = Reply::Number(42f64.to_bits()),
            Action::Finished { value } => return Ok(value),
            Action::Failed { diagnostic } => return Err(diagnostic),
        }
    }
}

#[test]
fn the_host_can_call_a_function() {
    let tokens = Scanner::new()
        .scan_tokens(String::from("fun add(a, b) { return a + b; } add;"))
        .unwrap();
    let statements = Parser::new().parse(tokens).unwrap();
    let mut interpreter = Interpreter::new(false);
    interpreter.interpret(&statements);
    let add = match finish(&mut interpreter) {
        Ok(Literal::Callable(callable)) => callable,
        other => panic!("{:?}", other),
    };
    assert_eq!(add.arity(), 2);
    add.call(
        &mut interpreter,
        vec![Literal::Number(1f64.to_bits()), Literal::Number(2f64.to_bits())],
    );
    match finish(&mut interpreter) {
        Ok(Literal::Number(bits)) => assert_eq!(f64::from_bits(bits), 3.0),
        other => panic!("{:?}", other),
    }
    add.call(&mut interpreter, vec![Literal::Nil]);
    let error = finish(&mut interpreter).unwrap_err();
    assert_eq!(error.message, "Expected 2 arguments but got 1.");
    assert_eq!((error.line, error.column), (0, 0));
}

#[test]
fn the_host_can_call_the_clock() {
    let mut interpreter = Interpreter::new(false);
    let clock = lox::callable::Callable::new(0, lox::callable::Code::Clock);
    clock.call(&mut interpreter, Vec::new());
    match finish(&mut interpreter) {
        Ok(Literal::Number(bits)) => assert_eq!(f64::from_bits(bits), 42.0),
        other => panic!("{:?}", other),
    }
    let stray = lox::callable::Callable::new(0, lox::callable::Code::Function { declaration: 5, closure: 0 });
    stray.call(&mut interpreter, Vec::new());
    let error = finish(&mut interpreter).unwrap_err();
    assert_eq!(error.message, "Can only perform calls on functions and classes.");
}

#[test]
fn every_runtime_error_stands_on_its_token() {
    let cases = [
        ("print 1;\n   missing;", "missing"),
        ("var a = 1;\n a = -\"x\";", "-"),
        ("print 12 * nil;", "*"),
        ("print 0 / 0;", "/"),
        ("var f = 1; f(1, 2);", ")"),
        ("fun f(a) { } f();", ")"),
        ("{ break; }", "break"),
        ("undefined = 3;", "undefined"),
    ];
    for (source, token) in cases {
        let run = execute(source);
        let error = run.error.as_ref().expect(source);
        let line = source.lines().nth(error.line - 1).expect(source);
        let start = line.rfind(token).expect(source) + 1;
        let end = start + token.len() - 1;
        assert!(start <= error.column && error.column <= end, "{}: {:?}", source, error);
    }
}

/// How many frames a program leaves behind.
fn frames_after(source: &str) -> usize {
    let tokens = Scanner::new().scan_tokens(String::from(source)).unwrap();
    let statements = Parser::new().parse(tokens).unwrap();
    let mut interpreter = Interpreter::new(false);
    assert_eq!(interpreter.frames(), 2);
    interpreter.interpret(&statements);
    let mut most = 0;
    let mut reply = Reply::Nothing;
    loop {
        most = most.max(interpreter.frames());
        match interpreter.run(reply, 7) {
            Action::Running | Action::Print { .. } => reply = Reply::Nothing,
            Action::Number { digits } => {
                reply = Reply::Number(digits.parse::<f64>().unwrap().to_bits());
            }
            Action::Arithmetic { operator, left, right } => {
                let (a, b) = (f64::from_bits(left), f64::from_bits(right));
                let result = match operator {
                    Operator::Add => a + b,
                    Operator::Subtract => a - b,
                    Operator::Multiply => a * b,
                    Operator::Divide => a / b,
                };
                reply = Reply::Number(result.to_bits());
            }
            Action::Text { number } => reply = Reply::Text(format!("{}", f64::from_bits(number))),
            Action::Clock => reply = Reply::Number(0),
            Action::Finished { .. } | Action::Failed { .. } => break,
        }
    }
    assert!(most < 40, "{} frames at once", most);
    interpreter.frames()
}

#[test]
fn frames_go_when_their_scope_is_left() {
    assert_eq!(frames_after("var i = 0; while (i < 500) { var j = i; { var k = j; } i = i + 1; }"), 2);
    assert_eq!(frames_after("for (var i = 0; i < 300; i = i + 1) { print i; }"), 2);
    assert_eq!(
        frames_after("fun fib(n) { if (n < 2) return n; return fib(n - 1) + fib(n - 2); } fib(12);"),
        2
    );
    assert_eq!(frames_after("var i = 0; while (i < 100) { { { i = i + 1; if (i > 50) break; } } }"), 2);
    assert_eq!(
        frames_after("fun f() { { { return 1; } } } var i = 0; while (i < 100) { f(); i = i + 1; }"),
        2
    );
    assert_eq!(frames_after("{ { missing; } }"), 2);
}

#[test]
fn frames_stay_while_a_function_holds_on_to_them() {
    let left = frames_after(
        "fun makeCounter() { var n = 0; fun inc() { n = n + 1; return n; } return inc; } var a = makeCounter(); var b = makeCounter(); a(); b(); a();",
    );
    assert_eq!(left, 4);
}

#[test]
fn closures_outlive_the_frames_around_them() {
    let run = execute(
        "fun outer() { var x = 1; { var y = 2; fun inner() { x = x + 1; return x + y; } return inner; } }
         var f = outer(); var g = outer(); { var z = 5; { var w = 6; } }
         print f(); print f(); print g();
         fun apply(h) { { var shadow = 9; return h(); } }
         print apply(f); print apply(g);",
    );
    assert_eq!(lines(&run), vec!["4", "5", "4", "6", "5"]);
}

#[test]
fn closures_made_in_a_loop_keep_their_own_variables() {
    let run = execute(
        "var first = nil; var second = nil;
         for (var i = 0; i < 2; i = i + 1) { var mine = i * 10; fun get() { return mine; } if (i == 0) first = get; else second = get; }
         { var noise = 1; } print first(); print second(); print first() + second();",
    );
    assert_eq!(lines(&run), vec!["0", "10", "10"]);
}

#[test]
fn a_function_leaves_through_loops_and_blocks_of_its_caller() {
    let run = execute(
        "fun find(limit) { var i = 0; while (true) { { if (i == limit) { return i; } } i = i + 1; } }
         var total = 0; for (var k = 0; k < 4; k = k + 1) { total = total + find(k); { var pad = k; } }
         print total;",
    );
    assert_eq!(lines(&run), vec!["6"]);
}

#[test]
fn a_recursive_closure_sees_itself_and_its_frame() {
    let run = execute(
        "fun make(step) { fun count(n) { if (n < 1) return 0; return step + count(n - 1); } return count; }
         var by_two = make(2); var by_five = make(5); print by_two(3); print by_five(4); print by_two(1);",
    );
    assert_eq!(lines(&run), vec!["6", "20", "2"]);
}

#[test]
fn a_break_in_a_function_ends_the_loop_that_called_it() {
    let run = execute(
        "fun stop() { break; } var i = 0; while (true) { i = i + 1; if (i == 3) { stop(); print \"never\"; } } print i;",
    );
    assert_eq!(lines(&run), vec!["3"]);
    assert!(run.error.is_none());
    let run = execute("fun stop() { break; } stop();");
    assert_eq!(failure(&run).2, "Can not break outside of a loop.");
}
