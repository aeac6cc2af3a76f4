//! Error categories and the structured events that the scanner, the parser
//! and the evaluator emit.
use vstd::prelude::*;
use vstd::string::*;
use vstd::utf8::*;
use crate::bytes::{NEWLINE, RETURN};
use crate::text::{
    decimal, decimal_text, left_from, lemma_boundary_after_ascii, run_end, slice_text, text_of,
    trim_text, trimmed, ByteClass,
};

verus! {

/// The category of a reported error.
#[derive(Clone, Copy, Debug, PartialEq, Eq, Structural)]
pub enum ErrorType {
    TokenError,
    ParserError,
    ResolverError,
    RuntimeError,
}

/// One reported error: its category, its place in the source and its message.
#[derive(Debug)]
pub struct Diagnostic {
    pub kind: ErrorType,
    pub line: usize,
    pub column: usize,
    pub message: String,
}

/// The mathematical content of a [`Diagnostic`].
pub struct DiagnosticView {
    pub kind: ErrorType,
    pub line: nat,
    pub column: nat,
    pub message: Seq<char>,
}

impl View for Diagnostic {
    type V = DiagnosticView;

    open spec fn view(&self) -> DiagnosticView {
        DiagnosticView {
            kind: self.kind,
            line: self.line as nat,
            column: self.column as nat,
            message: self.message@,
        }
    }
}

/// The contents of a list of diagnostics, one by one.
pub open spec fn diagnostic_views(diagnostics: Seq<Diagnostic>) -> Seq<DiagnosticView> {
    diagnostics.map_values(|diagnostic: Diagnostic| diagnostic@)
}

impl Clone for Diagnostic {
    fn clone(&self) -> (copy: Diagnostic)
        ensures
            copy == *self,
    {
        Diagnostic {
            kind: self.kind,
            line: self.line,
            column: self.column,
            message: self.message.clone(),
        }
    }
}

/// The lines of a text from byte `pos` on. A line ends at a newline or at
/// the end of the text; neither the newline nor a carriage return right
/// before it belongs to the line.
pub open spec fn lines_from(src: Seq<u8>, pos: nat) -> Seq<Seq<char>>
    decreases left_from(src, pos),
{
    if pos >= src.len() {
        Seq::empty()
    } else {
        let end = run_end(src, pos, ByteClass::Except(NEWLINE));
        let stop = if pos < end < src.len() && src[end - 1] == RETURN {
            (end - 1) as nat
        } else {
            end
        };
        seq![text_of(src, pos, stop)] + lines_from(src, end + 1)
    }
}

/// The lines of a text.
pub open spec fn lines_of(text: Seq<char>) -> Seq<Seq<char>> {
    lines_from(encode_utf8(text), 0)
}

/// The contents of a list of strings, one by one.
pub open spec fn string_views(strings: Seq<String>) -> Seq<Seq<char>> {
    strings.map_values(|string: String| string@)
}

/// Splits a text into its lines.
pub fn split_lines(source: &str) -> (lines: Vec<String>)
    ensures
        string_views(lines@) == lines_of(source@),
{
    broadcast use encode_utf8_valid_utf8;

    let bytes = source.as_bytes();
    let ghost src = bytes@;
    let mut lines: Vec<String> = Vec::new();
    let mut pos: usize = 0;
    proof {
        is_char_boundary_start_end_of_seq(src);
        assert(string_views(lines@) + lines_from(src, 0) =~= lines_from(src, 0));
    }
    while pos < bytes.len()
        invariant
            bytes@ == src,
            src == encode_utf8(source@),
            valid_utf8(src),
            pos <= src.len(),
            is_char_boundary(src, pos as int),
            string_views(lines@) + lines_from(src, pos as nat) == lines_from(src, 0),
        decreases src.len() - pos,
    {
        let mut end = pos;
        while end < bytes.len() && bytes[end] != NEWLINE
            invariant
                bytes@ == src,
                pos <= end <= src.len(),
                run_end(src, end as nat, ByteClass::Except(NEWLINE)) == run_end(
                    src,
                    pos as nat,
                    ByteClass::Except(NEWLINE),
                ),
            decreases src.len() - end,
        {
            end += 1;
        }
        let stop = if pos < end && end < bytes.len() && bytes[end - 1] == RETURN {
            end - 1
        } else {
            end
        };
        proof {
            if stop < src.len() {
                lemma_boundary_after_ascii(src, stop as int);
            } else {
                is_char_boundary_start_end_of_seq(src);
            }
            if end < src.len() {
                lemma_boundary_after_ascii(src, end as int);
            }
        }
        let line = slice_text(source, pos, stop);
        let ghost before = lines@;
        lines.push(line);
        proof {
            assert(string_views(lines@) =~= string_views(before).push(line@));
            assert(lines_from(src, pos as nat) =~= seq![line@] + lines_from(src, end as nat + 1));
            assert(string_views(lines@) + lines_from(src, end as nat + 1) =~= string_views(before)
                + lines_from(src, pos as nat));
        }
        if end < bytes.len() {
            pos = end + 1;
        } else {
            pos = end;
            assert(lines_from(src, end as nat + 1) =~= lines_from(src, end as nat));
        }
    }
    assert(string_views(lines@) + lines_from(src, pos as nat) =~= string_views(lines@));
    lines
}

/// Where diagnostics refer to: the name of a source and, if its text is at
/// hand, its lines.
#[derive(Debug)]
pub struct Error {
    pub file: String,
    pub lines: Option<Vec<String>>,
}

impl Error {
    /// The lines of the source, if its text is at hand.
    pub open spec fn line_views(&self) -> Option<Seq<Seq<char>>> {
        match self.lines {
            Some(lines) => Some(string_views(lines@)),
            None => None,
        }
    }

    /// An error context for the source named `file`, with the lines of its
    /// text if the text is given.
    pub fn new(file: &str, source: Option<String>) -> (error: Error)
        ensures
            error.file@ == file@,
            error.line_views() == match source {
                Some(text) => Some(lines_of(text@)),
                None => None,
            },
    {
        let lines = match source {
            Some(text) => Some(split_lines(text.as_str())),
            None => None,
        };
        Error { file: file.to_owned(), lines }
    }
}

impl ErrorType {
    /// The name of the category.
    pub open spec fn name(self) -> Seq<char> {
        match self {
            ErrorType::TokenError => "TokenError"@,
            ErrorType::ParserError => "ParserError"@,
            ErrorType::ResolverError => "ResolverError"@,
            ErrorType::RuntimeError => "RuntimeError"@,
        }
    }

    /// The name of the category.
    pub fn to_text(self) -> (text: String)
        ensures
            text@ == self.name(),
    {
        match self {
            ErrorType::TokenError => String::from_str("TokenError"),
            ErrorType::ParserError => String::from_str("ParserError"),
            ErrorType::ResolverError => String::from_str("ResolverError"),
            ErrorType::RuntimeError => String::from_str("RuntimeError"),
        }
    }
}

/// So many spaces.
pub open spec fn spaces(count: nat) -> Seq<char>
    decreases count,
{
    if count == 0 {
        Seq::empty()
    } else {
        spaces((count - 1) as nat) + " "@
    }
}

/// The line of the source that a diagnostic shows: line `line`, counted
/// from 1, without the whitespace at its ends; nothing where the source
/// is not at hand or has no such line.
pub open spec fn excerpt(lines: Option<Seq<Seq<char>>>, line: nat) -> Seq<Seq<char>> {
    match lines {
        Some(all) => if 1 <= line <= all.len() {
            seq![trimmed(all[line - 1])]
        } else {
            Seq::empty()
        },
        None => Seq::empty(),
    }
}

/// The line that points at a column: the caret stands after as many spaces
/// as the column says, and after one more where no source is shown.
pub open spec fn pointer(shown: bool, column: nat) -> Seq<char> {
    spaces(column) + (if shown {
        Seq::empty()
    } else {
        " "@
    }) + "^ -- Here"@
}

/// The line that says what is wrong and where.
pub open spec fn summary(
    file: Seq<char>,
    line: nat,
    typ: ErrorType,
    message: Seq<char>,
) -> Seq<char> {
    file + " @ Line "@ + decimal(line) + " - "@ + typ.name() + ": "@ + message
}

impl Error {
    /// The lines that report an error: the line of the source, if it is at
    /// hand, the pointer to the column, and the summary.
    pub open spec fn report_lines(
        &self,
        line: nat,
        column: nat,
        typ: ErrorType,
        message: Seq<char>,
    ) -> Seq<Seq<char>> {
        excerpt(self.line_views(), line) + seq![
            pointer(self.lines is Some, column),
            summary(self.file@, line, typ, message),
        ]
    }

    /// The lines to print for an error at the given line and column.
    pub fn report(
        &self,
        location: (usize, usize),
        typ: ErrorType,
        message: &str,
    ) -> (report: Vec<String>)
        ensures
            string_views(report@) == self.report_lines(
                location.0 as nat,
                location.1 as nat,
                typ,
                message@,
            ),
    {
        let (line, column) = location;
        let mut report: Vec<String> = Vec::new();
        assert(string_views(report@) =~= Seq::empty());
        match &self.lines {
            Some(all) => {
                if 1 <= line && line <= all.len() {
                    let shown = trim_text(all[line - 1].as_str());
                    report.push(shown);
                    assert(string_views(report@) =~= excerpt(self.line_views(), line as nat));
                }
            },
            None => {},
        }
        let mut caret = String::new();
        let mut count: usize = 0;
        assert(caret@ =~= spaces(0));
        while count < column
            invariant
                count <= column,
                caret@ == spaces(count as nat),
            decreases column - count,
        {
            caret.append(" ");
            count += 1;
        }
        if self.lines.is_none() {
            caret.append(" ");
        }
        caret.append("^ -- Here");
        assert(caret@ =~= pointer(self.lines is Some, column as nat));
        let mut text = self.file.clone();
        text.append(" @ Line ");
        text.append(decimal_text(line).as_str());
        text.append(" - ");
        text.append(typ.to_text().as_str());
        text.append(": ");
        text.append(message);
        let ghost before = report@;
        report.push(caret);
        report.push(text);
        assert(string_views(report@) =~= string_views(before) + seq![caret@, text@]);
        report
    }
}

} // verus!
