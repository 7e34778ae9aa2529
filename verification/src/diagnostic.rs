use vstd::prelude::*;

verus! {

#[derive(Debug, Clone, Copy, PartialEq, Eq, Structural)]
pub enum Severity {
    Allow,
    Note,
    Warning,
    Error,
}

/// Where a diagnostic points: a file path and a 1-based line/column range.
#[derive(Debug, Clone)]
pub struct Span {
    pub path: String,
    pub line_start: u32,
    pub line_end: u32,
    pub col_start: u32,
    pub col_end: u32,
}

#[derive(Debug, Clone)]
pub struct Diagnostic {
    pub lint_id: String,
    pub message: String,
    pub severity: Severity,
    pub span: Span,
    pub note: Option<String>,
}

/// Mathematical value of a [`Span`].
pub struct SpanView {
    pub path: Seq<char>,
    pub line_start: u32,
    pub line_end: u32,
    pub col_start: u32,
    pub col_end: u32,
}

/// Mathematical value of a [`Diagnostic`].
pub struct DiagnosticView {
    pub lint_id: Seq<char>,
    pub message: Seq<char>,
    pub severity: Severity,
    pub span: SpanView,
    pub note: Option<Seq<char>>,
}

impl View for Span {
    type V = SpanView;

    open spec fn view(&self) -> SpanView {
        SpanView {
            path: self.path@,
            line_start: self.line_start,
            line_end: self.line_end,
            col_start: self.col_start,
            col_end: self.col_end,
        }
    }
}

pub open spec fn note_view(n: Option<String>) -> Option<Seq<char>> {
    match n {
        Some(s) => Some(s@),
        None => None,
    }
}

impl View for Diagnostic {
    type V = DiagnosticView;

    open spec fn view(&self) -> DiagnosticView {
        DiagnosticView {
            lint_id: self.lint_id@,
            message: self.message@,
            severity: self.severity,
            span: self.span@,
            note: note_view(self.note),
        }
    }
}

/// The values of a list of diagnostics.
pub open spec fn diags_view(ds: Seq<Diagnostic>) -> Seq<DiagnosticView> {
    ds.map_values(|d: Diagnostic| d@)
}

/// A diagnostic value without a note.
pub open spec fn diag_spec(lint_id: Seq<char>, message: Seq<char>, severity: Severity, span: SpanView) -> DiagnosticView {
    DiagnosticView { lint_id, message, severity, span, note: None }
}

/// A span value on one or more lines of `path`.
pub open spec fn span_spec(path: Seq<char>, line_start: u32, line_end: u32, col_start: u32, col_end: u32) -> SpanView {
    SpanView { path, line_start, line_end, col_start, col_end }
}

impl Diagnostic {
    pub fn new(lint_id: &str, message: &str, severity: Severity, span: Span) -> (d: Self)
        ensures
            d@ == diag_spec(lint_id@, message@, severity, span@),
    {
        Diagnostic {
            lint_id: lint_id.to_string(),
            message: message.to_string(),
            severity,
            span,
            note: None,
        }
    }

    pub fn with_note(self, note: &str) -> (d: Self)
        ensures
            d@ == (DiagnosticView { note: Some(note@), ..self@ }),
    {
        let mut d = self;
        d.note = Some(note.to_string());
        d
    }
}

} // verus!
