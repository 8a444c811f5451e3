//! Reports for lexical and parse failures.
//!
//! A failure is turned into a [`Report`]: a code, a message, a primary span,
//! labelled spans and an optional note, all against the path of the file the
//! failure came from. Printing the report is the caller's part.
use crate::parser::ProgramSource;
use crate::text::{join, joined, texts};
use vstd::prelude::*;
use vstd::string::*;

verus! {

/// How far the context window reaches on either side of a failure.
pub const CONTEXT: usize = 10;

/// A half-open byte range `start..end` into one source file.
#[derive(Clone, Copy, Debug, PartialEq, Eq, Structural)]
pub struct Span {
    pub start: usize,
    pub end: usize,
}

/// What the lexer could not make sense of.
#[derive(Clone, Copy, Debug, PartialEq, Eq, Structural)]
pub enum LexingError {
    /// A numeric literal that does not parse.
    NumberParseError,
    /// Any other input that starts no token.
    Other,
}

/// One failure of the front end. Tokens are held by the text that shows them.
#[derive(Clone, Debug, PartialEq, Eq)]
pub enum Error {
    /// No token starts at `location`.
    InvalidToken { location: usize },
    /// The input ended at `location` where one of `expected` had to follow.
    UnrecognizedEof { location: usize, expected: Vec<String> },
    /// `token` occupies `start..end` where one of `expected` had to stand.
    UnrecognizedToken { start: usize, token: String, end: usize, expected: Vec<String> },
    /// `token` occupies `start..end` after the input was complete.
    ExtraToken { start: usize, token: String, end: usize },
    /// The lexer gave up on `start..end`.
    User { error: LexingError, start: usize, end: usize },
}

/// The mathematical value of an [`Error`].
pub enum ErrorView {
    InvalidToken { location: usize },
    UnrecognizedEof { location: usize, expected: Seq<Seq<char>> },
    UnrecognizedToken { start: usize, token: Seq<char>, end: usize, expected: Seq<Seq<char>> },
    ExtraToken { start: usize, token: Seq<char>, end: usize },
    User { error: LexingError, start: usize, end: usize },
}

impl View for Error {
    type V = ErrorView;

    open spec fn view(&self) -> ErrorView {
        match *self {
            Error::InvalidToken { location } => ErrorView::InvalidToken { location },
            Error::UnrecognizedEof { location, expected } => ErrorView::UnrecognizedEof {
                location,
                expected: texts(expected@),
            },
            Error::UnrecognizedToken { start, token, end, expected } => ErrorView::UnrecognizedToken {
                start,
                token: token@,
                end,
                expected: texts(expected@),
            },
            Error::ExtraToken { start, token, end } => ErrorView::ExtraToken {
                start,
                token: token@,
                end,
            },
            Error::User { error, start, end } => ErrorView::User { error, start, end },
        }
    }
}

impl ErrorView {
    /// The last byte offset the failure speaks of.
    pub open spec fn reach(self) -> int {
        match self {
            ErrorView::InvalidToken { location } => location as int,
            ErrorView::UnrecognizedEof { location, .. } => location as int,
            ErrorView::UnrecognizedToken { end, .. } => end as int,
            ErrorView::ExtraToken { end, .. } => end as int,
            ErrorView::User { end, .. } => end as int,
        }
    }

    /// Whether the context window past the failure is still an offset.
    pub open spec fn in_range(self) -> bool {
        self.reach() + CONTEXT <= usize::MAX
    }
}

/// One labelled span of a report. A coloured label takes the next colour of
/// the printer's palette; a plain one is printed in the default colour.
#[derive(Clone, Debug, PartialEq, Eq)]
pub struct Label {
    pub span: Span,
    pub message: String,
    pub colored: bool,
}

/// The mathematical value of a [`Label`].
pub struct LabelView {
    pub span: Span,
    pub message: Seq<char>,
    pub colored: bool,
}

impl View for Label {
    type V = LabelView;

    open spec fn view(&self) -> LabelView {
        LabelView { span: self.span, message: self.message@, colored: self.colored }
    }
}

/// A report of kind "error", ready to be printed against the file at `path`.
#[derive(Clone, Debug, PartialEq, Eq)]
pub struct Report {
    pub path: String,
    pub code: String,
    pub message: String,
    pub span: Span,
    pub labels: Vec<Label>,
    pub note: Option<String>,
}

/// The mathematical value of a [`Report`].
pub struct ReportView {
    pub path: Seq<char>,
    pub code: Seq<char>,
    pub message: Seq<char>,
    pub span: Span,
    pub labels: Seq<LabelView>,
    pub note: Option<Seq<char>>,
}

impl View for Report {
    type V = ReportView;

    open spec fn view(&self) -> ReportView {
        ReportView {
            path: self.path@,
            code: self.code@,
            message: self.message@,
            span: self.span,
            labels: Seq::new(self.labels@.len(), |i: int| self.labels@[i]@),
            note: match self.note {
                Some(note) => Some(note@),
                None => None,
            },
        }
    }
}

/// The context window around `start..end`: ten bytes more on either side, cut
/// off at the start of the file.
pub open spec fn window(start: usize, end: usize) -> Span
    recommends
        end + CONTEXT <= usize::MAX,
{
    Span {
        start: if start >= CONTEXT { (start - CONTEXT) as usize } else { 0 },
        end: (end + CONTEXT) as usize,
    }
}

/// The single byte at `location`.
pub open spec fn point(location: usize) -> Span
    recommends
        location + 1 <= usize::MAX,
{
    Span { start: location, end: (location + 1) as usize }
}

/// The label every window carries.
pub open spec fn window_label(start: usize, end: usize) -> LabelView {
    LabelView {
        span: window(start, end),
        message: "There was a problem parsing part of this code."@,
        colored: false,
    }
}

/// The note that lists what the parser would have accepted.
pub open spec fn expected_note(expected: Seq<Seq<char>>) -> Seq<char> {
    "expected one of the following: "@ + joined(expected, ", "@)
}

/// The report for `error`, found in the file at `path`.
pub open spec fn report_of(error: ErrorView, path: Seq<char>) -> ReportView {
    match error {
        ErrorView::InvalidToken { location } => ReportView {
            path,
            code: "P1"@,
            message: "Parse error."@,
            span: Span { start: location, end: location },
            labels: seq![
                LabelView { span: point(location), message: "invalid token"@, colored: true },
                window_label(location, location),
            ],
            note: None,
        },
        ErrorView::UnrecognizedEof { location, expected } => ReportView {
            path,
            code: "P2"@,
            message: "Parse error."@,
            span: Span { start: location, end: location },
            labels: seq![
                LabelView { span: point(location), message: "unrecognized eof"@, colored: true },
                window_label(location, location),
            ],
            note: Some(expected_note(expected)),
        },
        ErrorView::UnrecognizedToken { start, token, end, expected } => ReportView {
            path,
            code: "3"@,
            message: "Parse error."@,
            span: Span { start, end },
            labels: seq![
                LabelView {
                    span: Span { start, end },
                    message: "unrecognized token '"@ + token + "'"@,
                    colored: true,
                },
                window_label(start, end),
            ],
            note: Some(expected_note(expected)),
        },
        ErrorView::ExtraToken { start, token, end } => ReportView {
            path,
            code: "P3"@,
            message: "Parse error."@,
            span: Span { start, end },
            labels: seq![
                LabelView {
                    span: Span { start, end },
                    message: "unexpected extra token "@ + token,
                    colored: false,
                },
            ],
            note: None,
        },
        ErrorView::User { error: LexingError::NumberParseError, start, end } => ReportView {
            path,
            code: "4"@,
            message: "Error parsing literal number"@,
            span: Span { start, end },
            labels: seq![
                LabelView {
                    span: Span { start, end },
                    message: "error parsing literal number"@,
                    colored: true,
                },
            ],
            note: None,
        },
        ErrorView::User { error: LexingError::Other, start, end } => ReportView {
            path,
            code: "5"@,
            message: "Other error"@,
            span: Span { start, end },
            labels: seq![
                LabelView { span: Span { start, end }, message: "other error"@, colored: true },
            ],
            note: None,
        },
    }
}

fn window_of(start: usize, end: usize) -> (label: Label)
    requires
        end + CONTEXT <= usize::MAX,
    ensures
        label@ == window_label(start, end),
{
    Label {
        span: Span { start: start.saturating_sub(CONTEXT), end: end + CONTEXT },
        message: String::from_str("There was a problem parsing part of this code."),
        colored: false,
    }
}

fn note_of(expected: &Vec<String>) -> (note: String)
    ensures
        note@ == expected_note(texts(expected@)),
{
    let mut note = String::from_str("expected one of the following: ");
    let list = join(expected, ", ");
    note.append(list.as_str());
    note
}

fn report(
    path: &str,
    code: &str,
    message: &str,
    span: Span,
    labels: Vec<Label>,
    note: Option<String>,
) -> (report: Report)
    ensures
        report.path@ == path@,
        report.code@ == code@,
        report.message@ == message@,
        report.span == span,
        report.labels == labels,
        report.note == note,
{
    Report {
        path: path.to_owned(),
        code: code.to_owned(),
        message: message.to_owned(),
        span,
        labels,
        note,
    }
}

/// A failure of the front end, ready to be reported.
#[derive(Clone, Debug, PartialEq, Eq)]
pub struct Diagnostic(pub Error);

impl Diagnostic {
    /// Whether the context window of this failure stays within `usize`, which
    /// [`Diagnostic::render`] asks for.
    pub fn in_range(&self) -> (fits: bool)
        ensures
            fits == self.0@.in_range(),
    {
        let reach = match &self.0 {
            Error::InvalidToken { location } => *location,
            Error::UnrecognizedEof { location, .. } => *location,
            Error::UnrecognizedToken { end, .. } => *end,
            Error::ExtraToken { end, .. } => *end,
            Error::User { end, .. } => *end,
        };
        reach <= usize::MAX - CONTEXT
    }

    /// The report for this failure, against the path of `source`.
    ///
    /// The same failure and the same path always give the same report: the
    /// report is `report_of` of the two.
    pub fn render(&self, source: &ProgramSource) -> (out: Report)
        requires
            self.0@.in_range(),
        ensures
            out@ == report_of(self.0@, source.path@),
    {
        let path = source.path.as_str();
        let out = match &self.0 {
            Error::InvalidToken { location } => {
                let loc = *location;
                let mut labels: Vec<Label> = Vec::new();
                labels.push(
                    Label {
                        span: Span { start: loc, end: loc + 1 },
                        message: String::from_str("invalid token"),
                        colored: true,
                    },
                );
                labels.push(window_of(loc, loc));
                report(path, "P1", "Parse error.", Span { start: loc, end: loc }, labels, None)
            },
            Error::UnrecognizedEof { location, expected } => {
                let loc = *location;
                let mut labels: Vec<Label> = Vec::new();
                labels.push(
                    Label {
                        span: Span { start: loc, end: loc + 1 },
                        message: String::from_str("unrecognized eof"),
                        colored: true,
                    },
                );
                labels.push(window_of(loc, loc));
                report(
                    path,
                    "P2",
                    "Parse error.",
                    Span { start: loc, end: loc },
                    labels,
                    Some(note_of(expected)),
                )
            },
            Error::UnrecognizedToken { start, token, end, expected } => {
                let mut message = String::from_str("unrecognized token '");
                message.append(token.as_str());
                message.append("'");
                let mut labels: Vec<Label> = Vec::new();
                labels.push(Label { span: Span { start: *start, end: *end }, message, colored: true });
                labels.push(window_of(*start, *end));
                report(
                    path,
                    "3",
                    "Parse error.",
                    Span { start: *start, end: *end },
                    labels,
                    Some(note_of(expected)),
                )
            },
            Error::ExtraToken { start, token, end } => {
                let mut message = String::from_str("unexpected extra token ");
                message.append(token.as_str());
                let mut labels: Vec<Label> = Vec::new();
                labels.push(Label { span: Span { start: *start, end: *end }, message, colored: false });
                report(path, "P3", "Parse error.", Span { start: *start, end: *end }, labels, None)
            },
            Error::User { error, start, end } => {
                let span = Span { start: *start, end: *end };
                let mut labels: Vec<Label> = Vec::new();
                match error {
                    LexingError::NumberParseError => {
                        labels.push(
                            Label {
                                span,
                                message: String::from_str("error parsing literal number"),
                                colored: true,
                            },
                        );
                        report(path, "4", "Error parsing literal number", span, labels, None)
                    },
                    LexingError::Other => {
                        labels.push(
                            Label { span, message: String::from_str("other error"), colored: true },
                        );
                        report(path, "5", "Other error", span, labels, None)
                    },
                }
            },
        };
        assert(out@.labels =~= report_of(self.0@, source.path@).labels);
        out
    }

    /// The report for this failure, against the path of `source`, unless its
    /// context window would reach past the last offset there is.
    pub fn try_render(&self, source: &ProgramSource) -> (out: Option<Report>)
        ensures
            match out {
                Some(report) => self.0@.in_range() && report@ == report_of(self.0@, source.path@),
                None => !self.0@.in_range(),
            },
    {
        if self.in_range() {
            Some(self.render(source))
        } else {
            None
        }
    }
}

/// Rendering is a function of the failure and the path alone: equal failures
/// against equal paths give equal reports, label for label and note for note.
pub proof fn lemma_render_deterministic(a: ErrorView, b: ErrorView, path_a: Seq<char>, path_b: Seq<char>)
    requires
        a == b,
        path_a == path_b,
    ensures
        report_of(a, path_a) == report_of(b, path_b),
        report_of(a, path_a).labels == report_of(b, path_b).labels,
        report_of(a, path_a).note == report_of(b, path_b).note,
{
}

/// Every report carries at least one label, and the first one starts where the
/// primary span starts.
pub proof fn lemma_report_is_labelled(error: ErrorView, path: Seq<char>)
    ensures
        report_of(error, path).labels.len() >= 1,
        report_of(error, path).labels[0].span.start == report_of(error, path).span.start,
        report_of(error, path).path == path,
{
}

/// Whether two failures are of the same kind: both are the same failure of
/// the parser, or both are failures of the lexer of the same sub-kind.
pub open spec fn same_kind(a: ErrorView, b: ErrorView) -> bool {
    ||| a is InvalidToken && b is InvalidToken
    ||| a is UnrecognizedEof && b is UnrecognizedEof
    ||| a is UnrecognizedToken && b is UnrecognizedToken
    ||| a is ExtraToken && b is ExtraToken
    ||| a is User && b is User && a->error == b->error
}

/// Failures of different kinds are reported under different codes: every
/// failure of the parser has a code of its own, and so has every sub-kind of
/// failure of the lexer.
pub proof fn lemma_codes_are_distinct(a: ErrorView, b: ErrorView, path_a: Seq<char>, path_b: Seq<char>)
    requires
        !same_kind(a, b),
    ensures
        report_of(a, path_a).code != report_of(b, path_b).code,
{
    reveal_strlit("P1");
    reveal_strlit("P2");
    reveal_strlit("P3");
    reveal_strlit("3");
    reveal_strlit("4");
    reveal_strlit("5");
    assert("P1"@.len() == 2 && "P2"@.len() == 2 && "P3"@.len() == 2);
    assert("3"@.len() == 1 && "4"@.len() == 1 && "5"@.len() == 1);
    assert("P1"@[1] == '1' && "P2"@[1] == '2' && "P3"@[1] == '3');
    assert("3"@[0] == '3' && "4"@[0] == '4' && "5"@[0] == '5');
}

} // verus!
