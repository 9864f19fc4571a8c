//! Compile errors: where they were found, and the report handed to callers.
use vstd::prelude::*;
use crate::lexer::newline_at_or_after;
use crate::lines::{
    lemma_line_bounds, lemma_newline_scan, lemma_line_lookup, lemma_line_start_le, line_index,
    line_spans, line_start_at, LineTable,
};
use crate::commands::string_of;
use crate::parser::site_wf;

verus! {

/// The kinds of compile errors.
#[derive(Debug, Clone, Copy, PartialEq, Eq, Structural)]
pub enum ParseErrorType {
    MissingOperant,
    MissingInstruction,
    MissingLabel,
    MissingParenthesisClose,
    InvalidFixNumber,
    InvalidAddress,
    InvalidInstruction,
    InvalidOperant,
    InvalidToken,
    NotAllowedAddress,
    NotAllowedFixNumber,
    NotAllowedLabel,
    LabelReassign,
}

/// The message for each kind of error.
pub open spec fn error_message(kind: ParseErrorType) -> Seq<char> {
    match kind {
        ParseErrorType::MissingOperant => "Missing operand."@,
        ParseErrorType::MissingInstruction => "Missing instruction."@,
        ParseErrorType::MissingLabel => "Missing label."@,
        ParseErrorType::MissingParenthesisClose => "Missing closing parenthesis."@,
        ParseErrorType::InvalidFixNumber => "Invalid fix number."@,
        ParseErrorType::InvalidAddress => "Invalid address."@,
        ParseErrorType::InvalidInstruction => "Invalid instruction."@,
        ParseErrorType::InvalidOperant => "Invalid operand."@,
        ParseErrorType::InvalidToken => "Unexpected token."@,
        ParseErrorType::NotAllowedAddress => "Not allowed address."@,
        ParseErrorType::NotAllowedFixNumber => "Not allowed fix number."@,
        ParseErrorType::NotAllowedLabel => "Not allowed label."@,
        ParseErrorType::LabelReassign => "Label reassignment not allowed."@,
    }
}

impl ParseErrorType {
    /// A sentence that describes the error.
    pub fn message(&self) -> (r: String)
        ensures
            r@ == error_message(*self),
    {
        let text = match self {
            ParseErrorType::MissingOperant => "Missing operand.",
            ParseErrorType::MissingInstruction => "Missing instruction.",
            ParseErrorType::MissingLabel => "Missing label.",
            ParseErrorType::MissingParenthesisClose => "Missing closing parenthesis.",
            ParseErrorType::InvalidFixNumber => "Invalid fix number.",
            ParseErrorType::InvalidAddress => "Invalid address.",
            ParseErrorType::InvalidInstruction => "Invalid instruction.",
            ParseErrorType::InvalidOperant => "Invalid operand.",
            ParseErrorType::InvalidToken => "Unexpected token.",
            ParseErrorType::NotAllowedAddress => "Not allowed address.",
            ParseErrorType::NotAllowedFixNumber => "Not allowed fix number.",
            ParseErrorType::NotAllowedLabel => "Not allowed label.",
            ParseErrorType::LabelReassign => "Label reassignment not allowed.",
        };
        text.to_owned()
    }
}

/// An error found while compiling: its kind and the span of character
/// offsets of the offending token in the whole text.
#[derive(Debug, Clone, Copy, PartialEq, Eq, Structural)]
pub struct ParseErrorBuilder {
    pub kind: ParseErrorType,
    pub start: usize,
    pub end: usize,
}

impl ParseErrorBuilder {
    /// The error as reported: the line it is on and the span within it.
    pub fn build(&self, text: &[char], line_table: &LineTable) -> (r: ParseError)
        requires
            text@.len() <= usize::MAX,
            line_table@ == line_spans(text@),
            site_wf(text@, *self),
        ensures
            describes(text@, r, *self),
    {
        proof {
            lemma_line_lookup(text@, self.start as int);
            lemma_line_bounds(text@, self.start as int);
            lemma_line_start_le(text@, self.start as int);
            lemma_newline_scan(text@, self.start as int);
        }
        let line_number = line_table.get_line_index_of(self.start);
        let line = line_table.get(line_number).unwrap();
        let (line_start, line_end) = (line.start, line.end);
        let line_text = string_of(&text[line_start..line_end]);
        ParseError {
            kind: self.kind,
            start: self.start - line_start,
            end: self.end - line_start,
            line: Line { value: line_text, number: line_number },
        }
    }

    pub fn new(kind: ParseErrorType, start: usize, end: usize) -> (r: ParseErrorBuilder)
        ensures
            r == (ParseErrorBuilder { kind, start, end }),
    {
        ParseErrorBuilder { kind, start, end }
    }
}

/// The line that an error was found on: its text, without the newline, and
/// its 0-based index.
#[derive(Debug, Clone)]
pub struct Line {
    pub value: String,
    pub number: usize,
}

/// A compile error as reported: its kind, its line, and the span of the
/// offending token as offsets within that line.
#[derive(Debug, Clone)]
pub struct ParseError {
    pub kind: ParseErrorType,
    pub start: usize,
    pub end: usize,
    pub line: Line,
}

/// All errors of a failed compilation, in the order they were found.
#[derive(Debug, Clone)]
pub struct ParseErrorReport {
    pub errors: Vec<ParseError>,
}

/// `e` reports the error found at `site` in the text `s`.
pub open spec fn describes(s: Seq<char>, e: ParseError, site: ParseErrorBuilder) -> bool {
    let line_start = line_start_at(s, site.start as int);
    &&& e.kind == site.kind
    &&& e.line.number == line_index(s, site.start as int)
    &&& e.line.value@ == s.subrange(line_start, newline_at_or_after(s, site.start as int))
    &&& e.start == site.start - line_start
    &&& e.end == site.end - line_start
}

/// `report` reports the errors found at `sites`, one for one and in order.
pub open spec fn reports(
    s: Seq<char>,
    report: ParseErrorReport,
    sites: Seq<ParseErrorBuilder>,
) -> bool {
    &&& report.errors@.len() == sites.len()
    &&& forall|k: int| 0 <= k < sites.len() ==> describes(s, #[trigger] report.errors@[k], sites[k])
}

/// The errors found so far, in the order they were found.
#[derive(Debug)]
pub struct ParseErrorReportBuilder {
    pub error: Vec<ParseErrorBuilder>,
}

impl ParseErrorReportBuilder {
    pub fn new() -> (r: ParseErrorReportBuilder)
        ensures
            r.error@ == Seq::<ParseErrorBuilder>::empty(),
    {
        ParseErrorReportBuilder { error: Vec::new() }
    }

    pub fn is_successful(&self) -> (r: bool)
        ensures
            r == (self.error@.len() == 0),
    {
        self.error.len() == 0
    }

    pub fn add(&mut self, err: ParseErrorBuilder)
        ensures
            final(self).error@ == old(self).error@.push(err),
    {
        self.error.push(err);
    }

    /// The report of all errors, in order.
    pub fn build(self, text: &[char], line_table: &LineTable) -> (r: ParseErrorReport)
        requires
            text@.len() <= usize::MAX,
            line_table@ == line_spans(text@),
            forall|k: int| 0 <= k < self.error@.len() ==> site_wf(text@, #[trigger] self.error@[k]),
        ensures
            reports(text@, r, self.error@),
    {
        let mut errors: Vec<ParseError> = Vec::new();
        let mut index: usize = 0;
        while index < self.error.len()
            invariant
                text@.len() <= usize::MAX,
                line_table@ == line_spans(text@),
                forall|k: int| 0 <= k < self.error@.len() ==> site_wf(text@, #[trigger] self.error@[k]),
                index <= self.error@.len(),
                errors@.len() == index,
                forall|k: int| 0 <= k < index ==> describes(text@, #[trigger] errors@[k], self.error@[k]),
            decreases self.error@.len() - index,
        {
            assert(site_wf(text@, self.error@[index as int]));
            errors.push(self.error[index].build(text, line_table));
            index = index + 1;
        }
        ParseErrorReport { errors }
    }
}

} // verus!
