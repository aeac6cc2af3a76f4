//! The scanner: from source text to tokens.
//!
//! The scanner reads the source as bytes. The specification below says, for
//! every position of the source, which lexeme starts there and where it ends;
//! the token sequence of a source is what these lexemes give from position 0
//! on, followed by one `Eof`.
use vstd::prelude::*;
use vstd::string::*;
use vstd::utf8::*;
use crate::bytes::{
    BANG, COLON, COMMA, DOT, DOUBLE_QUOTE, EQUAL, GREATER, LEFT_BRACE, LEFT_PAREN, LESS, MINUS,
    NEWLINE, PLUS, QUESTION, RETURN, RIGHT_BRACE, RIGHT_PAREN, SEMICOLON, SINGLE_QUOTE, SLASH,
    SPACE, STAR, TAB,
};
use crate::error::{diagnostic_views, Diagnostic, DiagnosticView, ErrorType};
use crate::text::{
    is_alpha, is_digit, is_letter, left_from, lemma_boundary_after_ascii, lemma_run_end, run_end,
    same_text, slice_text, text_of, ByteClass,
};
use crate::tokens::{token_views, Token, TokenKind, TokenView};

verus! {

/// The line (1-based) in force after the first `n` bytes of `src`.
pub open spec fn line_at(src: Seq<u8>, n: nat) -> nat
    decreases n,
{
    if n == 0 || n > src.len() {
        1
    } else if src[n - 1] == NEWLINE {
        line_at(src, (n - 1) as nat) + 1
    } else {
        line_at(src, (n - 1) as nat)
    }
}

/// The column in force after the first `n` bytes of `src`: the number of
/// bytes since the last newline.
pub open spec fn column_at(src: Seq<u8>, n: nat) -> nat
    decreases n,
{
    if n == 0 || n > src.len() {
        0
    } else if src[n - 1] == NEWLINE {
        0
    } else {
        column_at(src, (n - 1) as nat) + 1
    }
}

/// The byte at `i`, or 0 beyond the end of the source.
pub open spec fn byte_at(src: Seq<u8>, i: nat) -> u8 {
    if i < src.len() {
        src[i as int]
    } else {
        0
    }
}

/// The kind of a word: that of the keyword it spells, or `Identifier`.
pub open spec fn word_kind(word: Seq<char>) -> TokenKind {
    if word == "and"@ {
        TokenKind::And
    } else if word == "class"@ {
        TokenKind::Class
    } else if word == "else"@ {
        TokenKind::Else
    } else if word == "false"@ {
        TokenKind::False
    } else if word == "fun"@ {
        TokenKind::Fun
    } else if word == "for"@ {
        TokenKind::For
    } else if word == "if"@ {
        TokenKind::If
    } else if word == "nil"@ {
        TokenKind::Nil
    } else if word == "or"@ {
        TokenKind::Or
    } else if word == "print"@ {
        TokenKind::Print
    } else if word == "return"@ {
        TokenKind::Return
    } else if word == "break"@ {
        TokenKind::Break
    } else if word == "super"@ {
        TokenKind::Super
    } else if word == "this"@ {
        TokenKind::This
    } else if word == "true"@ {
        TokenKind::True
    } else if word == "var"@ {
        TokenKind::Var
    } else if word == "while"@ {
        TokenKind::While
    } else {
        TokenKind::Identifier
    }
}

/// What a lexeme contributes to the result of a scan.
pub enum Lexeme {
    /// Whitespace or a comment.
    Skip,
    /// A token: its kind and its text.
    Token(TokenKind, Seq<char>),
    /// A lexical error: its message.
    Error(Seq<char>),
}

/// The kind of the punctuation that starts with `first`, given the byte that
/// follows it, and how many bytes it takes; `None` where `first` starts no
/// punctuation.
pub open spec fn punctuation(first: u8, second: u8) -> Option<(TokenKind, nat)> {
    let paired = second == EQUAL;
    if first == LEFT_PAREN {
        Some((TokenKind::LeftParen, 1nat))
    } else if first == RIGHT_PAREN {
        Some((TokenKind::RightParen, 1nat))
    } else if first == LEFT_BRACE {
        Some((TokenKind::LeftBrace, 1nat))
    } else if first == RIGHT_BRACE {
        Some((TokenKind::RightBrace, 1nat))
    } else if first == COMMA {
        Some((TokenKind::Comma, 1nat))
    } else if first == DOT {
        Some((TokenKind::Dot, 1nat))
    } else if first == SEMICOLON {
        Some((TokenKind::Semicolon, 1nat))
    } else if first == QUESTION {
        Some((TokenKind::Question, 1nat))
    } else if first == COLON {
        Some((TokenKind::Colon, 1nat))
    } else if first == MINUS {
        Some(if paired { (TokenKind::MinusEqual, 2nat) } else { (TokenKind::Minus, 1nat) })
    } else if first == PLUS {
        Some(if paired { (TokenKind::PlusEqual, 2nat) } else { (TokenKind::Plus, 1nat) })
    } else if first == STAR {
        Some(if paired { (TokenKind::StarEqual, 2nat) } else { (TokenKind::Star, 1nat) })
    } else if first == BANG {
        Some(if paired { (TokenKind::BangEqual, 2nat) } else { (TokenKind::Bang, 1nat) })
    } else if first == EQUAL {
        Some(if paired { (TokenKind::EqualEqual, 2nat) } else { (TokenKind::Equal, 1nat) })
    } else if first == LESS {
        Some(if paired { (TokenKind::LessEqual, 2nat) } else { (TokenKind::Less, 1nat) })
    } else if first == GREATER {
        Some(if paired { (TokenKind::GreaterEqual, 2nat) } else { (TokenKind::Greater, 1nat) })
    } else if first == SLASH && second != SLASH {
        Some((TokenKind::Slash, 1nat))
    } else {
        None
    }
}

/// Whether the byte is a space, a tab, a carriage return or a newline.
pub open spec fn is_blank(byte: u8) -> bool {
    byte == SPACE || byte == TAB || byte == RETURN || byte == NEWLINE
}

/// Whether the byte opens a string literal: `"` or `'`.
pub open spec fn is_quote(byte: u8) -> bool {
    byte == DOUBLE_QUOTE || byte == SINGLE_QUOTE
}

/// Whether no lexeme but an error starts with `first`, followed by `second`.
pub open spec fn starts_nothing(first: u8, second: u8) -> bool {
    &&& punctuation(first, second) is None
    &&& first != SLASH
    &&& !is_quote(first)
    &&& !is_blank(first)
    &&& !is_digit(first)
    &&& !is_alpha(first)
}

/// Where the digits of the number that starts at `pos` end: after the
/// integer part, or after a fraction of a point and at least one digit.
pub open spec fn number_end(src: Seq<u8>, pos: nat) -> nat {
    let whole = run_end(src, pos + 1, ByteClass::Digit);
    if byte_at(src, whole) == DOT && is_digit(byte_at(src, whole + 1)) {
        run_end(src, whole + 2, ByteClass::Digit)
    } else {
        whole
    }
}

/// How many bytes after the first the lexeme that starts at `pos` takes.
pub open spec fn lexeme_rest(src: Seq<u8>, pos: nat) -> nat
    recommends
        pos < src.len(),
{
    let first = byte_at(src, pos);
    let second = byte_at(src, pos + 1);
    let after = pos + 1;
    if let Some((_, length)) = punctuation(first, second) {
        (length - 1) as nat
    } else if first == SLASH {
        (run_end(src, pos + 2, ByteClass::Except(NEWLINE)) - after) as nat
    } else if is_quote(first) {
        let close = run_end(src, after, ByteClass::Except(first));
        if close < src.len() {
            (close + 1 - after) as nat
        } else {
            (close - after) as nat
        }
    } else if is_blank(first) {
        0
    } else if is_digit(first) {
        (number_end(src, pos) - after) as nat
    } else if is_alpha(first) {
        (run_end(src, after, ByteClass::Word) - after) as nat
    } else {
        (run_end(src, after, ByteClass::Continuation) - after) as nat
    }
}

/// The position at which the lexeme that starts at `pos` ends.
pub open spec fn lexeme_end(src: Seq<u8>, pos: nat) -> nat
    recommends
        pos < src.len(),
{
    pos + 1 + lexeme_rest(src, pos)
}

/// The lexeme that starts at `pos`.
pub open spec fn lexeme_at(src: Seq<u8>, pos: nat) -> Lexeme
    recommends
        pos < src.len(),
{
    let first = byte_at(src, pos);
    let second = byte_at(src, pos + 1);
    let end = lexeme_end(src, pos);
    if let Some((kind, _)) = punctuation(first, second) {
        Lexeme::Token(kind, Seq::empty())
    } else if first == SLASH {
        Lexeme::Skip
    } else if is_quote(first) {
        if run_end(src, pos + 1, ByteClass::Except(first)) < src.len() {
            Lexeme::Token(TokenKind::String, text_of(src, pos + 1, (end - 1) as nat))
        } else {
            Lexeme::Error("Unterminated string"@)
        }
    } else if is_blank(first) {
        Lexeme::Skip
    } else if is_digit(first) {
        Lexeme::Token(TokenKind::Number, text_of(src, pos, end))
    } else if is_alpha(first) {
        let word = text_of(src, pos, end);
        if word_kind(word) == TokenKind::Identifier {
            Lexeme::Token(TokenKind::Identifier, word)
        } else {
            Lexeme::Token(word_kind(word), Seq::empty())
        }
    } else {
        Lexeme::Error("Unexpected character: "@ + text_of(src, pos, end))
    }
}

/// The token that the lexeme at `pos` gives, if it gives one. Its place is
/// that in force when its lexeme has been read: the line and column of its
/// last byte.
pub open spec fn token_at(src: Seq<u8>, pos: nat) -> Seq<TokenView> {
    let end = lexeme_end(src, pos);
    match lexeme_at(src, pos) {
        Lexeme::Token(kind, text) => seq![
            TokenView {
                kind,
                text,
                line: line_at(src, end),
                column: column_at(src, end),
            },
        ],
        _ => Seq::empty(),
    }
}

/// The error that the lexeme at `pos` gives, if it gives one. It is reported
/// at the place where the lexeme ends.
pub open spec fn error_at(src: Seq<u8>, pos: nat) -> Seq<DiagnosticView> {
    let end = lexeme_end(src, pos);
    match lexeme_at(src, pos) {
        Lexeme::Error(message) => seq![
            DiagnosticView {
                kind: ErrorType::TokenError,
                line: line_at(src, end),
                column: column_at(src, end),
                message,
            },
        ],
        _ => Seq::empty(),
    }
}

/// The tokens that the source gives from `pos` on, without the final `Eof`.
pub open spec fn tokens_from(src: Seq<u8>, pos: nat) -> Seq<TokenView>
    decreases left_from(src, pos),
{
    if pos >= src.len() {
        Seq::empty()
    } else {
        token_at(src, pos) + tokens_from(src, lexeme_end(src, pos))
    }
}

/// The lexical errors that the source gives from `pos` on.
pub open spec fn errors_from(src: Seq<u8>, pos: nat) -> Seq<DiagnosticView>
    decreases left_from(src, pos),
{
    if pos >= src.len() {
        Seq::empty()
    } else {
        error_at(src, pos) + errors_from(src, lexeme_end(src, pos))
    }
}

/// The `Eof` token that ends the tokens of the source.
pub open spec fn eof_token(src: Seq<u8>) -> TokenView {
    TokenView {
        kind: TokenKind::Eof,
        text: Seq::empty(),
        line: line_at(src, src.len()),
        column: column_at(src, src.len()),
    }
}

/// The tokens of the source: those of its lexemes, then `Eof`.
pub open spec fn tokens_of(src: Seq<u8>) -> Seq<TokenView> {
    tokens_from(src, 0).push(eof_token(src))
}

/// The lexical errors of the source.
pub open spec fn errors_of(src: Seq<u8>) -> Seq<DiagnosticView> {
    errors_from(src, 0)
}

/// A line never exceeds the bytes read by more than one, nor a column the
/// bytes read.
pub proof fn lemma_place_bounds(src: Seq<u8>, n: nat)
    ensures
        1 <= line_at(src, n) <= n + 1,
        column_at(src, n) <= n,
    decreases n,
{
    if n > 0 && n <= src.len() {
        lemma_place_bounds(src, (n - 1) as nat);
    }
}

/// Over bytes that hold no newline the line stays and the column counts them.
pub proof fn lemma_place_run(src: Seq<u8>, from: nat, to: nat)
    requires
        from <= to <= src.len(),
        forall|i: int| from <= i < to ==> src[i] != NEWLINE,
    ensures
        line_at(src, to) == line_at(src, from),
        column_at(src, to) == column_at(src, from) + (to - from),
    decreases to - from,
{
    if from < to {
        lemma_place_run(src, from, (to - 1) as nat);
    }
}

/// The scanner. It keeps nothing from one scan to the next.
pub struct Scanner {
    source: String,
    start: usize,
    current: usize,
    column: usize,
    line: usize,
    tokens: Vec<Token>,
    diagnostics: Vec<Diagnostic>,
}

impl Scanner {
    /// The bytes of the source being scanned.
    pub closed spec fn src(&self) -> Seq<u8> {
        encode_utf8(self.source@)
    }

    /// The position of the next byte to read.
    pub closed spec fn position(&self) -> nat {
        self.current as nat
    }

    /// The tokens found so far.
    pub closed spec fn found(&self) -> Seq<TokenView> {
        token_views(self.tokens@)
    }

    /// The errors found so far.
    pub closed spec fn errors(&self) -> Seq<DiagnosticView> {
        diagnostic_views(self.diagnostics@)
    }

    /// The scanner stands inside its source, between two characters, and
    /// its line and column are those of its position.
    pub closed spec fn wf(&self) -> bool {
        &&& self.src().len() < usize::MAX
        &&& self.current <= self.src().len()
        &&& self.start <= self.current
        &&& self.line == line_at(self.src(), self.current as nat)
        &&& self.column == column_at(self.src(), self.current as nat)
    }

    /// The scanner stands between two characters of its source.
    pub closed spec fn aligned(&self) -> bool {
        is_char_boundary(self.src(), self.current as int)
    }

    /// The scanner has read one lexeme more than `before`, which stood at
    /// the start of that lexeme, and has recorded what the lexeme gives.
    pub closed spec fn scanned(&self, before: &Scanner) -> bool {
        &&& self.wf()
        &&& self.aligned()
        &&& self.source == before.source
        &&& self.current == lexeme_end(self.src(), before.start as nat)
        &&& self.found() == before.found() + token_at(self.src(), before.start as nat)
        &&& self.errors() == before.errors() + error_at(self.src(), before.start as nat)
    }

    /// The scanner has only moved forward since `before`.
    pub closed spec fn moved(&self, before: &Scanner) -> bool {
        &&& self.wf()
        &&& self.source == before.source
        &&& self.start == before.start
        &&& self.tokens == before.tokens
        &&& self.diagnostics == before.diagnostics
        &&& self.current >= before.current
    }

    pub fn new() -> (scanner: Scanner)
        ensures
            scanner.wf(),
            scanner.aligned(),
            scanner.position() == 0,
            scanner.src().len() == 0,
            scanner.found().len() == 0,
            scanner.errors().len() == 0,
    {
        let scanner = Scanner {
            source: String::new(),
            start: 0,
            current: 0,
            column: 0,
            line: 1,
            tokens: Vec::new(),
            diagnostics: Vec::new(),
        };
        proof {
            assert(scanner.source@ =~= Seq::<char>::empty());
            assert(encode_utf8(Seq::<char>::empty()) =~= Seq::<u8>::empty()) by {
                reveal_with_fuel(encode_utf8, 1);
            }
            assert(valid_utf8(Seq::<u8>::empty()));
            assert(is_char_boundary(Seq::<u8>::empty(), 0));
        }
        scanner
    }

    /// Records a lexical error at the place where the scanner stands.
    fn error(&mut self, message: String)
        requires
            old(self).wf(),
        ensures
            final(self).wf(),
            final(self).source == old(self).source,
            final(self).start == old(self).start,
            final(self).current == old(self).current,
            final(self).tokens == old(self).tokens,
            final(self).errors() == old(self).errors().push(
                DiagnosticView {
                    kind: ErrorType::TokenError,
                    line: line_at(old(self).src(), old(self).current as nat),
                    column: column_at(old(self).src(), old(self).current as nat),
                    message: message@,
                },
            ),
    {
        let diagnostic = Diagnostic {
            kind: ErrorType::TokenError,
            line: self.line,
            column: self.column,
            message,
        };
        self.diagnostics.push(diagnostic);
        assert(self.errors() =~= old(self).errors().push(diagnostic@));
    }

    /// Records a token that ends where the scanner stands.
    fn emit(&mut self, kind: TokenKind, text: String, column: usize)
        requires
            old(self).wf(),
        ensures
            final(self).wf(),
            final(self).source == old(self).source,
            final(self).start == old(self).start,
            final(self).current == old(self).current,
            final(self).diagnostics == old(self).diagnostics,
            final(self).found() == old(self).found().push(
                TokenView {
                    kind,
                    text: text@,
                    line: line_at(old(self).src(), old(self).current as nat),
                    column: column as nat,
                },
            ),
    {
        let token = Token { kind, text, line: self.line, column };
        self.tokens.push(token);
        assert(self.found() =~= old(self).found().push(token@));
    }

    /// Whether the whole source has been read.
    fn is_end(&self) -> (end: bool)
        requires
            self.wf(),
        ensures
            end == (self.current >= self.src().len()),
    {
        self.current >= self.source.as_str().len()
    }

    /// The byte `ahead` places after the next one, or 0 beyond the end.
    fn peek(&self, ahead: usize) -> (byte: u8)
        requires
            self.wf(),
        ensures
            byte == byte_at(self.src(), (self.current + ahead) as nat),
    {
        let bytes = self.source.as_str().as_bytes();
        if ahead < bytes.len() - self.current {
            bytes[self.current + ahead]
        } else {
            0
        }
    }

    /// Starts a new line.
    fn increment_line(&mut self)
        requires
            old(self).line < usize::MAX,
        ensures
            *final(self) == (Scanner {
                line: (old(self).line + 1) as usize,
                column: 0,
                ..*old(self)
            }),
    {
        self.line += 1;
        self.column = 0;
    }

    /// Reads one byte.
    fn increment_current(&mut self)
        requires
            old(self).wf(),
            old(self).current < old(self).src().len(),
        ensures
            final(self).moved(old(self)),
            final(self).current == old(self).current + 1,
    {
        proof {
            lemma_place_bounds(self.src(), self.current as nat);
        }
        let byte = self.source.as_str().as_bytes()[self.current];
        self.current += 1;
        if byte == NEWLINE {
            self.increment_line();
        } else {
            self.column += 1;
        }
    }

    /// Reads the next byte if it is the expected one.
    fn look_ahead(&mut self, expected: u8) -> (matched: bool)
        requires
            old(self).wf(),
            expected != 0,
        ensures
            final(self).moved(old(self)),
            matched == (byte_at(old(self).src(), old(self).current as nat) == expected),
            final(self).current == old(self).current + if matched { 1int } else { 0int },
    {
        if self.peek(0) == expected {
            self.increment_current();
            true
        } else {
            false
        }
    }

    /// Reads on while the bytes are of the given class.
    fn run(&mut self, class: ByteClass)
        requires
            old(self).wf(),
        ensures
            final(self).moved(old(self)),
            final(self).current == run_end(old(self).src(), old(self).current as nat, class),
    {
        while !self.is_end() && class.test(self.peek(0))
            invariant
                self.moved(old(self)),
                run_end(self.src(), self.current as nat, class) == run_end(
                    old(self).src(),
                    old(self).current as nat,
                    class,
                ),
            decreases self.src().len() - self.current,
        {
            self.increment_current();
        }
    }

    /// Reads the rest of a string literal whose opening delimiter was just
    /// read, and records the token, or the error if the literal never ends.
    fn scan_string(&mut self, delimiter: u8)
        requires
            old(self).wf(),
            old(self).current == old(self).start + 1,
            is_quote(delimiter),
            old(self).src()[old(self).start as int] == delimiter,
        ensures
            final(self).scanned(old(self)),
    {
        broadcast use encode_utf8_valid_utf8;

        let ghost src = self.src();
        let ghost open = self.start as int;
        proof {
            lemma_run_end(src, self.current as nat, ByteClass::Except(delimiter));
            lemma_boundary_after_ascii(src, open);
        }
        self.run(ByteClass::Except(delimiter));
        if self.is_end() {
            proof {
                is_char_boundary_start_end_of_seq(src);
            }
            self.error(String::from_str("Unterminated string"));
            proof {
                let pos = open as nat;
                assert(punctuation(src[open], byte_at(src, pos + 1)) is None);
                assert(self.current == lexeme_end(src, pos));
                assert(lexeme_at(src, pos) == Lexeme::Error("Unterminated string"@));
                assert(self.found() =~= old(self).found() + token_at(src, pos));
                assert(self.errors() =~= old(self).errors() + error_at(src, pos));
            }
        } else {
            let close = self.current;
            proof {
                lemma_boundary_after_ascii(src, close as int);
            }
            self.increment_current();
            let text = slice_text(self.source.as_str(), self.start + 1, close);
            let column = self.column;
            self.emit(TokenKind::String, text, column);
            proof {
                let pos = open as nat;
                assert(punctuation(src[open], byte_at(src, pos + 1)) is None);
                assert(self.current == lexeme_end(src, pos));
                assert(lexeme_at(src, pos) == Lexeme::Token(TokenKind::String, text@));
                assert(self.found() =~= old(self).found() + token_at(src, pos));
                assert(self.errors() =~= old(self).errors() + error_at(src, pos));
            }
        }
    }

    /// Reads the rest of a number whose first digit was just read, and
    /// records the token.
    fn scan_number(&mut self)
        requires
            old(self).wf(),
            old(self).current == old(self).start + 1,
            is_digit(old(self).src()[old(self).start as int]),
        ensures
            final(self).scanned(old(self)),
    {
        broadcast use encode_utf8_valid_utf8;

        let ghost src = self.src();
        let ghost first = self.start as nat;
        proof {
            lemma_run_end(src, first + 1, ByteClass::Digit);
            lemma_boundary_after_ascii(src, first as int);
        }
        self.run(ByteClass::Digit);
        let ghost whole = self.current as nat;
        if self.peek(0) == DOT && ByteClass::Digit.test(self.peek(1)) {
            proof {
                lemma_run_end(src, whole + 2, ByteClass::Digit);
            }
            self.increment_current();
            self.increment_current();
            self.run(ByteClass::Digit);
        }
        proof {
            assert(self.current == number_end(src, first));
            assert(is_digit(src[self.current - 1]));
            lemma_boundary_after_ascii(src, self.current - 1);
        }
        let text = slice_text(self.source.as_str(), self.start, self.current);
        let column = self.column;
        self.emit(TokenKind::Number, text, column);
        proof {
            assert(punctuation(src[first as int], byte_at(src, first + 1)) is None);
            assert(self.current == lexeme_end(src, first));
            assert(lexeme_at(src, first) == Lexeme::Token(TokenKind::Number, text@));
            assert(self.found() =~= old(self).found() + token_at(src, first));
            assert(self.errors() =~= old(self).errors() + error_at(src, first));
        }
    }

    /// Reads the rest of a word whose first letter was just read, and records
    /// the keyword or the identifier that it spells.
    fn scan_identifier(&mut self)
        requires
            old(self).wf(),
            old(self).current == old(self).start + 1,
            is_alpha(old(self).src()[old(self).start as int]),
        ensures
            final(self).scanned(old(self)),
    {
        broadcast use encode_utf8_valid_utf8;

        let ghost src = self.src();
        let ghost first = self.start as nat;
        proof {
            lemma_run_end(src, first + 1, ByteClass::Word);
            lemma_boundary_after_ascii(src, first as int);
        }
        self.run(ByteClass::Word);
        proof {
            assert(ByteClass::Word.holds(src[self.current - 1]));
            lemma_boundary_after_ascii(src, self.current - 1);
        }
        let word = slice_text(self.source.as_str(), self.start, self.current);
        let kind = word_kind_of(word.as_str());
        proof {
            assert(punctuation(src[first as int], byte_at(src, first + 1)) is None);
            assert(self.current == lexeme_end(src, first));
            assert(word@ == text_of(src, first, self.current as nat));
        }
        let column = self.column;
        if kind == TokenKind::Identifier {
            self.emit(TokenKind::Identifier, word, column);
        } else {
            self.emit(kind, String::new(), column);
        }
        proof {
            assert(self.found() =~= old(self).found() + token_at(src, first));
            assert(self.errors() =~= old(self).errors() + error_at(src, first));
        }
    }

    /// Reads the rest of a character that starts no lexeme, and records the
    /// error.
    fn scan_unexpected(&mut self)
        requires
            old(self).wf(),
            old(self).current == old(self).start + 1,
            old(self).start < old(self).src().len(),
            valid_utf8(old(self).src()) ==> is_char_boundary(
                old(self).src(),
                old(self).start as int,
            ),
            starts_nothing(
                old(self).src()[old(self).start as int],
                byte_at(old(self).src(), old(self).start as nat + 1),
            ),
        ensures
            final(self).scanned(old(self)),
    {
        broadcast use encode_utf8_valid_utf8;

        let ghost src = self.src();
        proof {
            lemma_run_end(src, self.current as nat, ByteClass::Continuation);
        }
        self.run(ByteClass::Continuation);
        proof {
            if self.current < src.len() {
                is_char_boundary_iff_not_is_continuation_byte(src, self.current as int);
            } else {
                is_char_boundary_start_end_of_seq(src);
            }
        }
        let found = slice_text(self.source.as_str(), self.start, self.current);
        let mut message = String::from_str("Unexpected character: ");
        message.append(found.as_str());
        self.error(message);
        proof {
            let pos = self.start as nat;
            assert(self.current == lexeme_end(src, pos));
            assert(lexeme_at(src, pos) == Lexeme::Error(message@));
            assert(self.found() =~= old(self).found() + token_at(src, pos));
            assert(self.errors() =~= old(self).errors() + error_at(src, pos));
        }
    }

    /// Reads one lexeme and records what it gives.
    fn scan_token(&mut self)
        requires
            old(self).wf(),
            old(self).aligned(),
            old(self).start == old(self).current,
            old(self).current < old(self).src().len(),
        ensures
            final(self).scanned(old(self)),
    {
        broadcast use encode_utf8_valid_utf8;

        let ghost src = self.src();
        let ghost pos = self.current as nat;
        let first = self.peek(0);
        self.increment_current();
        proof {
            if first < 0x80 {
                lemma_boundary_after_ascii(src, pos as int);
            }
        }
        if first == DOUBLE_QUOTE || first == SINGLE_QUOTE {
            self.scan_string(first);
        } else if first == SPACE || first == TAB || first == RETURN || first == NEWLINE {
            proof {
                assert(punctuation(first, byte_at(src, pos + 1)) is None);
                assert(self.current == lexeme_end(src, pos));
                assert(lexeme_at(src, pos) == Lexeme::Skip);
                assert(self.found() =~= old(self).found() + token_at(src, pos));
                assert(self.errors() =~= old(self).errors() + error_at(src, pos));
            }
        } else if ByteClass::Digit.test(first) {
            self.scan_number();
        } else if is_letter(first) {
            self.scan_identifier();
        } else if first == SLASH {
            if self.look_ahead(SLASH) {
                proof {
                    lemma_run_end(src, pos + 2, ByteClass::Except(NEWLINE));
                }
                self.run(ByteClass::Except(NEWLINE));
                proof {
                    if self.current < src.len() {
                        is_char_boundary_iff_not_is_continuation_byte(src, self.current as int);
                    } else {
                        is_char_boundary_start_end_of_seq(src);
                    }
                    assert(punctuation(first, byte_at(src, pos + 1)) is None);
                    assert(self.current == lexeme_end(src, pos));
                    assert(lexeme_at(src, pos) == Lexeme::Skip);
                    assert(self.found() =~= old(self).found() + token_at(src, pos));
                    assert(self.errors() =~= old(self).errors() + error_at(src, pos));
                }
            } else {
                let column = self.column;
                self.emit(TokenKind::Slash, String::new(), column);
                proof {
                    assert(punctuation(first, byte_at(src, pos + 1)) == Some(
                        (TokenKind::Slash, 1nat),
                    ));
                    assert(self.current == lexeme_end(src, pos));
                    assert(self.found() =~= old(self).found() + token_at(src, pos));
                    assert(self.errors() =~= old(self).errors() + error_at(src, pos));
                }
            }
        } else if !punctuated(first) {
            self.scan_unexpected();
        } else {
            let paired = if first == MINUS || first == PLUS || first == STAR || first == BANG
                || first == EQUAL || first == LESS || first == GREATER {
                self.look_ahead(EQUAL)
            } else {
                false
            };
            proof {
                if paired {
                    lemma_boundary_after_ascii(src, pos as int + 1);
                }
            }
            let kind = punctuation_kind(first, paired);
            let column = self.column;
            self.emit(kind, String::new(), column);
            proof {
                let second = byte_at(src, pos + 1);
                assert((second == EQUAL) == paired || !(first == MINUS || first == PLUS
                    || first == STAR || first == BANG || first == EQUAL || first == LESS
                    || first == GREATER));
                assert(punctuation(first, second) is Some);
                assert(punctuation(first, second).unwrap().0 == kind);
                assert(self.current == lexeme_end(src, pos));
                assert(lexeme_at(src, pos) == Lexeme::Token(kind, Seq::<char>::empty()));
                assert(self.found() =~= old(self).found() + token_at(src, pos));
                assert(self.errors() =~= old(self).errors() + error_at(src, pos));
            }
        }
    }

    /// Scans a source: its tokens, ended by `Eof`, or, if it holds a lexical
    /// error, all its lexical errors.
    pub fn scan_tokens(&mut self, source: String) -> (result: Result<Vec<Token>, Vec<Diagnostic>>)
        requires
            encode_utf8(source@).len() < usize::MAX,
        ensures
            match result {
                Ok(tokens) => {
                    &&& errors_of(encode_utf8(source@)).len() == 0
                    &&& token_views(tokens@) == tokens_of(encode_utf8(source@))
                },
                Err(diagnostics) => {
                    &&& diagnostics@.len() > 0
                    &&& diagnostic_views(diagnostics@) == errors_of(encode_utf8(source@))
                },
            },
    {
        broadcast use encode_utf8_valid_utf8;

        self.current = 0;
        self.start = 0;
        self.column = 0;
        self.line = 1;
        self.tokens = Vec::new();
        self.diagnostics = Vec::new();
        self.source = source;
        let ghost src = self.src();
        assert(self.found() =~= Seq::empty());
        assert(self.errors() =~= Seq::empty());
        while !self.is_end()
            invariant
                self.wf(),
                self.aligned(),
                self.src() == src,
                src == encode_utf8(source@),
                self.found() + tokens_from(src, self.current as nat) == tokens_from(src, 0),
                self.errors() + errors_from(src, self.current as nat) == errors_from(src, 0),
            decreases src.len() - self.current,
        {
            self.start = self.current;
            let ghost before = *self;
            self.scan_token();
            proof {
                let pos = before.current as nat;
                assert(self.found() + tokens_from(src, self.current as nat) =~= before.found()
                    + tokens_from(src, pos));
                assert(self.errors() + errors_from(src, self.current as nat) =~= before.errors()
                    + errors_from(src, pos));
            }
        }
        let column = self.column;
        self.emit(TokenKind::Eof, String::new(), column);
        let mut tokens: Vec<Token> = Vec::new();
        let mut diagnostics: Vec<Diagnostic> = Vec::new();
        core::mem::swap(&mut self.tokens, &mut tokens);
        core::mem::swap(&mut self.diagnostics, &mut diagnostics);
        proof {
            assert(token_views(tokens@) =~= tokens_of(src));
            assert(diagnostic_views(diagnostics@) =~= errors_of(src));
        }
        if diagnostics.len() > 0 {
            Err(diagnostics)
        } else {
            Ok(tokens)
        }
    }
}

/// Whether the byte starts a punctuation token other than `/`.
fn punctuated(first: u8) -> (known: bool)
    ensures
        known == (first != SLASH && punctuation(first, 0) is Some),
{
    first == LEFT_PAREN || first == RIGHT_PAREN || first == LEFT_BRACE || first == RIGHT_BRACE
        || first == COMMA || first == DOT || first == SEMICOLON || first == QUESTION
        || first == COLON || first == MINUS || first == PLUS || first == STAR || first == BANG
        || first == EQUAL || first == LESS || first == GREATER
}

/// The kind of the punctuation that starts with `first`, `paired` telling
/// whether `=` follows it.
fn punctuation_kind(first: u8, paired: bool) -> (kind: TokenKind)
    requires
        first != SLASH,
        punctuation(first, 0) is Some,
    ensures
        forall|second: u8|
            (second == EQUAL) == paired || !(first == MINUS || first == PLUS || first == STAR
                || first == BANG || first == EQUAL || first == LESS || first == GREATER) ==> (
            #[trigger] punctuation(first, second)) is Some && punctuation(first, second).unwrap().0
                == kind,
{
    if first == LEFT_PAREN {
        TokenKind::LeftParen
    } else if first == RIGHT_PAREN {
        TokenKind::RightParen
    } else if first == LEFT_BRACE {
        TokenKind::LeftBrace
    } else if first == RIGHT_BRACE {
        TokenKind::RightBrace
    } else if first == COMMA {
        TokenKind::Comma
    } else if first == DOT {
        TokenKind::Dot
    } else if first == SEMICOLON {
        TokenKind::Semicolon
    } else if first == QUESTION {
        TokenKind::Question
    } else if first == COLON {
        TokenKind::Colon
    } else if first == MINUS {
        if paired { TokenKind::MinusEqual } else { TokenKind::Minus }
    } else if first == PLUS {
        if paired { TokenKind::PlusEqual } else { TokenKind::Plus }
    } else if first == STAR {
        if paired { TokenKind::StarEqual } else { TokenKind::Star }
    } else if first == BANG {
        if paired { TokenKind::BangEqual } else { TokenKind::Bang }
    } else if first == EQUAL {
        if paired { TokenKind::EqualEqual } else { TokenKind::Equal }
    } else if first == LESS {
        if paired { TokenKind::LessEqual } else { TokenKind::Less }
    } else {
        if paired { TokenKind::GreaterEqual } else { TokenKind::Greater }
    }
}

/// The kind of a word: that of the keyword it spells, or `Identifier`.
fn word_kind_of(word: &str) -> (kind: TokenKind)
    ensures
        kind == word_kind(word@),
{
    if same_text(word, "and") {
        TokenKind::And
    } else if same_text(word, "class") {
        TokenKind::Class
    } else if same_text(word, "else") {
        TokenKind::Else
    } else if same_text(word, "false") {
        TokenKind::False
    } else if same_text(word, "fun") {
        TokenKind::Fun
    } else if same_text(word, "for") {
        TokenKind::For
    } else if same_text(word, "if") {
        TokenKind::If
    } else if same_text(word, "nil") {
        TokenKind::Nil
    } else if same_text(word, "or") {
        TokenKind::Or
    } else if same_text(word, "print") {
        TokenKind::Print
    } else if same_text(word, "return") {
        TokenKind::Return
    } else if same_text(word, "break") {
        TokenKind::Break
    } else if same_text(word, "super") {
        TokenKind::Super
    } else if same_text(word, "this") {
        TokenKind::This
    } else if same_text(word, "true") {
        TokenKind::True
    } else if same_text(word, "var") {
        TokenKind::Var
    } else if same_text(word, "while") {
        TokenKind::While
    } else {
        TokenKind::Identifier
    }
}

} // verus!
