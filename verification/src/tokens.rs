//! Tokens: what the scanner produces and the parser consumes.
use vstd::prelude::*;

verus! {

/// The lexical category of a token.
#[derive(Clone, Copy, Debug, PartialEq, Eq, Structural)]
pub enum TokenKind {
    // Single-character tokens
    LeftParen,
    RightParen,
    LeftBrace,
    RightBrace,
    Comma,
    Dot,
    Semicolon,
    Question,
    Colon,
    Minus,
    Plus,
    Slash,
    Star,
    // One or two character tokens
    Bang,
    BangEqual,
    Equal,
    EqualEqual,
    Greater,
    GreaterEqual,
    Less,
    LessEqual,
    PlusEqual,
    MinusEqual,
    StarEqual,
    // Literals
    Identifier,
    String,
    Number,
    // Keywords
    And,
    Class,
    Else,
    False,
    Fun,
    For,
    If,
    Nil,
    Or,
    Print,
    Return,
    Break,
    Super,
    This,
    True,
    Var,
    While,
    // End of input
    Eof,
}

/// A token: its kind, its payload and the place where it was found.
///
/// `text` is the name of an `Identifier`, the contents of a `String` without
/// its delimiters and the digits of a `Number`; it is empty for every other
/// kind. `line` is 1-based. `column` is the 1-based column of the last byte of
/// the lexeme.
#[derive(Debug)]
pub struct Token {
    pub kind: TokenKind,
    pub text: String,
    pub line: usize,
    pub column: usize,
}

/// The mathematical content of a [`Token`].
pub struct TokenView {
    pub kind: TokenKind,
    pub text: Seq<char>,
    pub line: nat,
    pub column: nat,
}

impl View for Token {
    type V = TokenView;

    open spec fn view(&self) -> TokenView {
        TokenView {
            kind: self.kind,
            text: self.text@,
            line: self.line as nat,
            column: self.column as nat,
        }
    }
}

/// The contents of a list of tokens, one by one.
pub open spec fn token_views(tokens: Seq<Token>) -> Seq<TokenView> {
    tokens.map_values(|token: Token| token@)
}

impl Clone for Token {
    fn clone(&self) -> (copy: Token)
        ensures
            copy == *self,
    {
        Token { kind: self.kind, text: self.text.clone(), line: self.line, column: self.column }
    }
}

impl Token {
    /// A token without payload.
    pub fn new(kind: TokenKind, line: usize, column: usize) -> (token: Token)
        ensures
            token@ == (TokenView { kind, text: Seq::<char>::empty(), line: line as nat, column: column as nat }),
            token.line == line,
            token.column == column,
    {
        Token { kind, text: String::new(), line, column }
    }

    /// The line and column at which the token was found.
    pub fn location(&self) -> (place: (usize, usize))
        ensures
            place == (self.line, self.column),
    {
        (self.line, self.column)
    }
}

} // verus!
