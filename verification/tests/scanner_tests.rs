use lox::error::ErrorType;
use lox::scanner::Scanner;
use lox::tokens::{Token, TokenKind};

fn scan(source: &str) -> Vec<Token> {
    Scanner::new().scan_tokens(String::from(source)).expect("the source scans")
}

fn kinds(tokens: &[Token]) -> Vec<TokenKind> {
    tokens.iter().map(|token| token.kind).collect()
}

#[test]
fn scans_a_print_statement() {
    let tokens = scan("print 1 + 2;");
    assert_eq!(
        kinds(&tokens),
        vec![
            TokenKind::Print,
            TokenKind::Number,
            TokenKind::Plus,
            TokenKind::Number,
            TokenKind::Semicolon,
            TokenKind::Eof
        ]
    );
    assert_eq!(tokens[1].text, "1");
    assert_eq!((tokens[0].line, tokens[0].column), (1, 5));
    assert_eq!((tokens[1].line, tokens[1].column), (1, 7));
    assert_eq!((tokens[2].line, tokens[2].column), (1, 9));
    assert_eq!((tokens[5].line, tokens[5].column), (1, 12));
}

#[test]
fn scans_every_punctuation() {
    let tokens = scan("(){},.;?:-+/*! != = == > >= < <= += -= *=");
    assert_eq!(
        kinds(&tokens),
        vec![
            TokenKind::LeftParen,
            TokenKind::RightParen,
            TokenKind::LeftBrace,
            TokenKind::RightBrace,
            TokenKind::Comma,
            TokenKind::Dot,
            TokenKind::Semicolon,
            TokenKind::Question,
            TokenKind::Colon,
            TokenKind::Minus,
            TokenKind::Plus,
            TokenKind::Slash,
            TokenKind::Star,
            TokenKind::Bang,
            TokenKind::BangEqual,
            TokenKind::Equal,
            TokenKind::EqualEqual,
            TokenKind::Greater,
            TokenKind::GreaterEqual,
            TokenKind::Less,
            TokenKind::LessEqual,
            TokenKind::PlusEqual,
            TokenKind::MinusEqual,
            TokenKind::StarEqual,
            TokenKind::Eof
        ]
    );
    assert!(tokens.iter().all(|token| token.text.is_empty()));
}

#[test]
fn scans_every_keyword() {
    let tokens = scan(
        "and class else false fun for if nil or print return break super this true var while",
    );
    assert_eq!(
        kinds(&tokens),
        vec![
            TokenKind::And,
            TokenKind::Class,
            TokenKind::Else,
            TokenKind::False,
            TokenKind::Fun,
            TokenKind::For,
            TokenKind::If,
            TokenKind::Nil,
            TokenKind::Or,
            TokenKind::Print,
            TokenKind::Return,
            TokenKind::Break,
            TokenKind::Super,
            TokenKind::This,
            TokenKind::True,
            TokenKind::Var,
            TokenKind::While,
            TokenKind::Eof
        ]
    );
}

#[test]
fn an_identifier_reports_its_last_column() {
    let tokens = scan("var answer_42 = nil;");
    assert_eq!(tokens[1].kind, TokenKind::Identifier);
    assert_eq!(tokens[1].text, "answer_42");
    assert_eq!((tokens[1].line, tokens[1].column), (1, 13));
    assert_eq!((tokens[0].line, tokens[0].column), (1, 3));
    assert_eq!((tokens[2].line, tokens[2].column), (1, 15));
}

#[test]
fn a_keyword_prefix_is_an_identifier() {
    let tokens = scan("classy orchid");
    assert_eq!(kinds(&tokens), vec![TokenKind::Identifier, TokenKind::Identifier, TokenKind::Eof]);
    assert_eq!(tokens[0].text, "classy");
    assert_eq!(tokens[1].text, "orchid");
}

#[test]
fn scans_numbers_with_and_without_fraction() {
    let tokens = scan("12 3.25 7. .5");
    assert_eq!(
        kinds(&tokens),
        vec![
            TokenKind::Number,
            TokenKind::Number,
            TokenKind::Number,
            TokenKind::Dot,
            TokenKind::Dot,
            TokenKind::Number,
            TokenKind::Eof
        ]
    );
    assert_eq!(tokens[0].text, "12");
    assert_eq!(tokens[1].text, "3.25");
    assert_eq!(tokens[2].text, "7");
    assert_eq!(tokens[5].text, "5");
}

#[test]
fn scans_strings_with_either_delimiter() {
    let tokens = scan("\"it's\" 'say \"hi\"' \"\"");
    assert_eq!(
        kinds(&tokens),
        vec![TokenKind::String, TokenKind::String, TokenKind::String, TokenKind::Eof]
    );
    assert_eq!(tokens[0].text, "it's");
    assert_eq!(tokens[1].text, "say \"hi\"");
    assert_eq!(tokens[2].text, "");
}

#[test]
fn a_string_spans_lines_and_keeps_what_it_holds() {
    let tokens = scan("\"a\nb\u{e9}\" x");
    assert_eq!(tokens[0].kind, TokenKind::String);
    assert_eq!(tokens[0].text, "a\nb\u{e9}");
    assert_eq!((tokens[0].line, tokens[0].column), (2, 4));
    assert_eq!((tokens[1].line, tokens[1].column), (2, 6));
}

#[test]
fn skips_comments_and_counts_lines() {
    let tokens = scan("// nothing here\nprint // trailing\n\t 1;\r\n");
    assert_eq!(
        kinds(&tokens),
        vec![TokenKind::Print, TokenKind::Number, TokenKind::Semicolon, TokenKind::Eof]
    );
    assert_eq!((tokens[0].line, tokens[0].column), (2, 5));
    assert_eq!((tokens[1].line, tokens[1].column), (3, 3));
    assert_eq!((tokens[3].line, tokens[3].column), (4, 0));
}

#[test]
fn an_empty_source_gives_eof_alone() {
    let tokens = scan("");
    assert_eq!(kinds(&tokens), vec![TokenKind::Eof]);
    assert_eq!((tokens[0].line, tokens[0].column), (1, 0));
}

#[test]
fn an_operator_at_the_end_is_scanned() {
    let tokens = scan("a -");
    assert_eq!(kinds(&tokens), vec![TokenKind::Identifier, TokenKind::Minus, TokenKind::Eof]);
    let tokens = scan("a /");
    assert_eq!(kinds(&tokens), vec![TokenKind::Identifier, TokenKind::Slash, TokenKind::Eof]);
}

#[test]
fn an_unterminated_string_is_an_error() {
    let errors = Scanner::new().scan_tokens(String::from("print \"abc")).unwrap_err();
    assert_eq!(errors.len(), 1);
    assert_eq!(errors[0].kind, ErrorType::TokenError);
    assert_eq!(errors[0].message, "Unterminated string");
    assert_eq!((errors[0].line, errors[0].column), (1, 10));
}

#[test]
fn every_unexpected_character_is_reported() {
    let errors = Scanner::new().scan_tokens(String::from("a @ b # _c \u{e9}")).unwrap_err();
    let messages: Vec<&str> = errors.iter().map(|error| error.message.as_str()).collect();
    assert_eq!(
        messages,
        vec![
            "Unexpected character: @",
            "Unexpected character: #",
            "Unexpected character: _",
            "Unexpected character: \u{e9}"
        ]
    );
    assert_eq!((errors[0].line, errors[0].column), (1, 3));
    assert_eq!((errors[1].line, errors[1].column), (1, 7));
    assert_eq!((errors[2].line, errors[2].column), (1, 9));
    assert_eq!((errors[3].line, errors[3].column), (1, 13));
}

#[test]
fn scanning_is_repeatable() {
    let source = "var x = 1; // c\nprint x + \"s\";";
    let mut scanner = Scanner::new();
    let first = scanner.scan_tokens(String::from(source)).unwrap();
    let second = scanner.scan_tokens(String::from(source)).unwrap();
    let third = Scanner::new().scan_tokens(String::from(source)).unwrap();
    assert_eq!(first.len(), second.len());
    for i in 0..first.len() {
        assert_eq!(first[i].kind, second[i].kind);
        assert_eq!(first[i].text, second[i].text);
        assert_eq!(first[i].location(), second[i].location());
        assert_eq!(first[i].kind, third[i].kind);
        assert_eq!(first[i].text, third[i].text);
        assert_eq!(first[i].location(), third[i].location());
    }
}

#[test]
fn a_failed_scan_leaves_nothing_behind() {
    let mut scanner = Scanner::new();
    assert!(scanner.scan_tokens(String::from("@")).is_err());
    let tokens = scanner.scan_tokens(String::from("1")).unwrap();
    assert_eq!(kinds(&tokens), vec![TokenKind::Number, TokenKind::Eof]);
}

#[test]
fn the_digits_of_a_number_scan_to_themselves() {
    for digits in ["0", "7", "42", "3.14", "100.001", "0.5"] {
        let tokens = scan(digits);
        assert_eq!(kinds(&tokens), vec![TokenKind::Number, TokenKind::Eof]);
        assert_eq!(tokens[0].text, digits);
        let value: f64 = tokens[0].text.parse().unwrap();
        let again = scan(&format!("{}", value));
        assert_eq!(again[0].kind, TokenKind::Number);
        let back: f64 = again[0].text.parse().unwrap();
        assert_eq!(value, back);
    }
}
