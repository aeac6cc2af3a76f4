use lox::callable::{Callable, Code};
use lox::environment::Environment;
use lox::error::{split_lines, Error, ErrorType};
use lox::expressions::Literal;
use lox::numbers::{is_less, is_same, negate, zero};
use lox::text::{decimal_text, same_text, slice_text};
use lox::tokens::{Token, TokenKind};

fn number(literal: &Literal) -> f64 {
    match literal {
        Literal::Number(bits) => f64::from_bits(*bits),
        other => panic!("no number: {:?}", other),
    }
}

#[test]
fn lines_are_split_as_std_splits_them() {
    let texts = [
        "",
        "a",
        "a\n",
        "\n",
        "\n\n",
        "a\nb",
        "a\r\nb\r\n",
        "a\rb\n",
        "a\r",
        "\r\n",
        "one\n\n  three \r\n\u{e9}t\u{e9}\nlast",
    ];
    for text in texts {
        let expected: Vec<String> = text.lines().map(String::from).collect();
        assert_eq!(split_lines(text), expected, "{:?}", text);
    }
}

#[test]
fn an_error_context_keeps_the_name_and_the_lines() {
    let error = Error::new("script.lox", Some(String::from("var a;\n  print a;\n")));
    assert_eq!(error.file, "script.lox");
    assert_eq!(error.lines, Some(vec![String::from("var a;"), String::from("  print a;")]));
    let prompt = Error::new("REPL", None);
    assert_eq!(prompt.file, "REPL");
    assert_eq!(prompt.lines, None);
}

#[test]
fn a_report_shows_the_line_the_pointer_and_the_summary() {
    let error = Error::new("script.lox", Some(String::from("var a;\n  print b;  \n")));
    let report = error.report((2, 9), ErrorType::RuntimeError, "Undefined variable 'b'");
    assert_eq!(
        report,
        vec![
            String::from("print b;"),
            String::from("         ^ -- Here"),
            String::from("script.lox @ Line 2 - RuntimeError: Undefined variable 'b'"),
        ]
    );
}

#[test]
fn a_report_without_source_shifts_the_pointer() {
    let error = Error::new("REPL", None);
    let report = error.report((1, 3), ErrorType::ParserError, "Expected expression.");
    assert_eq!(
        report,
        vec![
            String::from("    ^ -- Here"),
            String::from("REPL @ Line 1 - ParserError: Expected expression."),
        ]
    );
    let report = error.report((12, 0), ErrorType::TokenError, "Unterminated string");
    assert_eq!(report[0], " ^ -- Here");
    assert_eq!(report[1], "REPL @ Line 12 - TokenError: Unterminated string");
}

#[test]
fn a_report_of_a_line_that_is_not_there_shows_none() {
    let error = Error::new("f", Some(String::from("one")));
    assert_eq!(error.report((0, 0), ErrorType::ResolverError, "m").len(), 2);
    assert_eq!(error.report((2, 0), ErrorType::ResolverError, "m").len(), 2);
    let report = error.report((1, 0), ErrorType::ResolverError, "m");
    assert_eq!(report, vec![String::from("one"), String::from("^ -- Here"), String::from("f @ Line 1 - ResolverError: m")]);
}

#[test]
fn categories_have_their_names() {
    assert_eq!(ErrorType::TokenError.to_text(), "TokenError");
    assert_eq!(ErrorType::ParserError.to_text(), "ParserError");
    assert_eq!(ErrorType::ResolverError.to_text(), "ResolverError");
    assert_eq!(ErrorType::RuntimeError.to_text(), "RuntimeError");
}

#[test]
fn numbers_are_written_in_decimal() {
    for n in [0usize, 1, 9, 10, 11, 99, 100, 255, 1024, 9_999_999, usize::MAX] {
        assert_eq!(decimal_text(n), format!("{}", n));
    }
}

#[test]
fn texts_are_compared_and_sliced() {
    assert!(same_text("", ""));
    assert!(same_text("abc", "abc"));
    assert!(!same_text("abc", "abd"));
    assert!(!same_text("abc", "ab"));
    assert!(same_text("\u{e9}", "\u{e9}"));
    assert_eq!(slice_text("hello world", 6, 11), "world");
    assert_eq!(slice_text("hello", 2, 2), "");
    assert_eq!(slice_text("a\u{e9}b", 1, 3), "\u{e9}");
}

#[test]
fn a_token_tells_its_place() {
    let token = Token::new(TokenKind::Plus, 3, 14);
    assert_eq!(token.location(), (3, 14));
    assert_eq!(token.kind, TokenKind::Plus);
    assert!(token.text.is_empty());
    let copy = token.clone();
    assert_eq!(copy.location(), (3, 14));
    assert_eq!(copy.kind, TokenKind::Plus);
}

#[test]
fn doubles_are_ordered_by_their_bits() {
    let values = [
        0.0f64,
        -0.0,
        1.0,
        -1.0,
        0.5,
        -0.5,
        1e300,
        -1e300,
        5e-324,
        -5e-324,
        f64::MAX,
        f64::MIN,
        f64::INFINITY,
        f64::NEG_INFINITY,
        f64::NAN,
        -f64::NAN,
        3.25,
        2.0,
    ];
    for a in values {
        assert_eq!(zero(a.to_bits()), a == 0.0, "{}", a);
        assert_eq!(negate(a.to_bits()), (-a).to_bits(), "{}", a);
        for b in values {
            assert_eq!(is_less(a.to_bits(), b.to_bits()), a < b, "{} < {}", a, b);
            assert_eq!(is_same(a.to_bits(), b.to_bits()), a == b, "{} == {}", a, b);
        }
    }
}

#[test]
fn values_are_compared_by_the_table() {
    let one = Literal::Number(1f64.to_bits());
    let nan = Literal::Number(f64::NAN.to_bits());
    let text = Literal::String(String::from("1"));
    let clock = Literal::Callable(Callable::new(0, Code::Clock));
    assert!(one.equals(&Literal::Number(1f64.to_bits())));
    assert!(!nan.equals(&Literal::Number(f64::NAN.to_bits())));
    assert!(Literal::Number(0f64.to_bits()).equals(&Literal::Number((-0f64).to_bits())));
    assert!(!one.equals(&text));
    assert!(text.equals(&Literal::String(String::from("1"))));
    assert!(Literal::Nil.equals(&Literal::Nil));
    assert!(!Literal::Nil.equals(&Literal::Boolean(false)));
    assert!(one.equals(&Literal::Boolean(true)));
    assert!(!one.equals(&Literal::Boolean(false)));
    assert!(Literal::Boolean(true).equals(&text));
    assert!(!Literal::Boolean(false).equals(&text));
    assert!(!clock.equals(&Literal::Callable(Callable::new(0, Code::Clock))));
    assert!(!clock.equals(&Literal::Boolean(true)));
    assert_eq!(number(&one.clone()), 1.0);
}

#[test]
fn a_callable_tells_its_arity() {
    let clock = Callable::new(0, Code::Clock);
    assert_eq!(clock.arity(), 0);
    let function = Callable::new(3, Code::Function { declaration: 7, closure: 2 });
    assert_eq!(function.arity(), 3);
    assert_eq!(function.code, Code::Function { declaration: 7, closure: 2 });
}

#[test]
fn frames_shadow_and_assignments_reach_out() {
    let mut environment = Environment::new();
    assert_eq!(environment.len(), 1);
    environment.define(0, "x", Literal::Number(1f64.to_bits()));
    environment.define(0, "y", Literal::Boolean(true));
    let inner = environment.nest(0);
    assert_eq!(inner, 1);
    assert!(environment.contains(0, "x"));
    assert!(!environment.contains(inner, "x"));
    assert_eq!(environment.holder(inner, "x"), Some(0));
    assert_eq!(environment.holder(inner, "z"), None);
    assert_eq!(number(environment.get(inner, "x").unwrap()), 1.0);

    environment.define(inner, "x", Literal::Number(2f64.to_bits()));
    assert!(environment.contains(inner, "x"));
    assert_eq!(number(environment.get(inner, "x").unwrap()), 2.0);
    assert_eq!(number(environment.get(0, "x").unwrap()), 1.0);

    environment.bind(inner, "y", Literal::Boolean(false));
    assert!(!environment.contains(inner, "y"));
    assert!(matches!(environment.get(0, "y"), Some(Literal::Boolean(false))));
    assert!(matches!(environment.get(inner, "y"), Some(Literal::Boolean(false))));

    environment.bind(inner, "z", Literal::Nil);
    assert!(environment.contains(inner, "z"));
    assert!(environment.get(0, "z").is_none());

    environment.define(inner, "x", Literal::Number(3f64.to_bits()));
    assert_eq!(number(environment.get(inner, "x").unwrap()), 3.0);
    assert_eq!(number(environment.get(0, "x").unwrap()), 1.0);

    let sibling = environment.nest(0);
    assert_eq!(sibling, 2);
    assert_eq!(number(environment.get(sibling, "x").unwrap()), 1.0);
    assert!(environment.get(sibling, "z").is_none());
    assert!(environment.get(17, "x").is_none());
}

#[test]
fn frames_are_released_from_the_end() {
    let mut environment = Environment::new();
    let first = environment.nest(0);
    let second = environment.nest(first);
    let third = environment.nest(second);
    assert_eq!(environment.len(), 4);
    environment.release(second);
    assert_eq!(environment.len(), 3);
    environment.release(second);
    assert_eq!(environment.len(), 3);

    environment.capture(second);
    let fourth = environment.nest(second);
    assert_eq!(fourth, third);
    environment.define(second, "kept", Literal::Boolean(true));
    environment.release(0);
    assert_eq!(environment.len(), 3);
    assert!(matches!(environment.get(second, "kept"), Some(Literal::Boolean(true))));
    environment.release(17);
    assert_eq!(environment.len(), 3);
}
