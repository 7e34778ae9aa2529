use vstd::prelude::*;
use vstd::utf8::encode_utf8;
use vstd::string::StringSliceAdditionalSpecFns;

use crate::diagnostic::{diag_spec, diags_view, note_view, span_spec, Diagnostic, DiagnosticView, Severity, Span};
use crate::lint_meta::{LintCategory, LintDef};
use crate::lints::{per_line_diags, text_lines, SourceLintPass};
use crate::pattern::{compile_pattern, find_first, opt_range_view, regex_compiles, regex_first_match};
use crate::seq_util::{filter_some, lemma_filter_some_take};
use crate::source_file::{is_comment_line, is_line_comment_line, SourceFile};

verus! {

pub const ID: &'static str = "bare_abort";

pub const DOC: &'static str = "`abort` with a magic numeric code is easy to misuse; prefer named constants or structured errors.";

pub const PATTERN: &'static str = r"\babort\s*\(?\s*(0x[0-9A-Fa-f]+|[0-9]+)\b";

pub const MESSAGE: &'static str = "`abort` with a numeric literal code; prefer a named error constant";

pub fn lint() -> (d: LintDef)
    ensures
        d.id == ID,
        d.category == LintCategory::Suspicious,
        d.doc == DOC,
{
    LintDef { id: ID, category: LintCategory::Suspicious, doc: DOC }
}

/// What the pass reports on one line (1-based number `n`): the first `abort` whose code
/// is a numeric literal (`abort 3`, `abort(0x1)`), outside whole-line comments.
pub open spec fn line_diag(path: Seq<char>) -> spec_fn(int, Seq<char>) -> Option<DiagnosticView> {
    |n: int, line: Seq<char>|
        if is_comment_line(line) {
            None
        } else {
            match_diag(path, n, regex_first_match(PATTERN@, line))
        }
}

/// The diagnostic for a match at byte range `m` of line `n` (1-based).
pub open spec fn match_diag(path: Seq<char>, n: int, m: Option<(int, int)>) -> Option<DiagnosticView> {
    match m {
        Some((s, e)) => Some(
            diag_spec(
                ID@,
                MESSAGE@,
                Severity::Warning,
                span_spec(path, n as u32, n as u32, (s + 1) as u32, (e + 1) as u32),
            ),
        ),
        None => None,
    }
}

/// The diagnostic the pass reports for a match at byte range `m` of line `line_no`.
pub fn match_diagnostic(path: &String, line_no: u32, m: Option<(usize, usize)>) -> (r: Option<Diagnostic>)
    requires
        m matches Some((s, e)) ==> s <= e < u32::MAX,
    ensures
        match r {
            Some(d) => match_diag(path@, line_no as int, opt_range_view(m)) == Some(d@),
            None => match_diag(path@, line_no as int, opt_range_view(m)) is None,
        },
{
    match m {
        Some((s, e)) => {
            let d = Diagnostic::new(
                ID,
                MESSAGE,
                Severity::Warning,
                Span {
                    path: path.clone(),
                    line_start: line_no,
                    line_end: line_no,
                    col_start: s as u32 + 1,
                    col_end: e as u32 + 1,
                },
            );
            Some(d)
        },
        None => None,
    }
}

pub open spec fn file_diags(path: Seq<char>, text: Seq<char>) -> Seq<DiagnosticView> {
    if regex_compiles(PATTERN@) {
        per_line_diags(text, line_diag(path))
    } else {
        seq![]
    }
}

pub struct Pass;

impl SourceLintPass for Pass {
    open spec fn spec_lint_def(&self) -> LintDef {
        LintDef { id: ID, category: LintCategory::Suspicious, doc: DOC }
    }

    open spec fn spec_check_file(
        &self,
        path: Seq<char>,
        text: Seq<char>,
        rel: Option<Seq<char>>,
    ) -> Seq<DiagnosticView> {
        file_diags(path, text)
    }

    fn lint_def(&self) -> (d: LintDef) {
        lint()
    }

    fn check_file(&self, file: &SourceFile) -> (r: Vec<Diagnostic>) {
        let re = match compile_pattern(PATTERN) {
            Some(re) => re,
            None => {
                return Vec::new();
            },
        };
        let lines = file.lines();
        let ghost ls = text_lines(file.text@);
        let ghost f = line_diag(file.path@);
        let ghost all = Seq::new(ls.len(), |k: int| f(k + 1, ls[k]));
        let mut diags: Vec<Diagnostic> = Vec::new();
        let mut k: usize = 0;
        while k < lines.len()
            invariant
                lines@.len() == ls.len(),
                ls == text_lines(file.text@),
                f == line_diag(file.path@),
                all == Seq::new(ls.len(), |k: int| f(k + 1, ls[k])),
                re@ == PATTERN@,
                encode_utf8(file.text@).len() < u32::MAX,
                forall|j: int|
                    0 <= j < lines@.len() ==> (#[trigger] lines@[j]).1.spec_bytes().len()
                        <= encode_utf8(file.text@).len(),
                forall|j: int|
                    0 <= j < lines@.len() ==> (#[trigger] lines@[j]).0 == j + 1 && lines@[j].1@
                        == ls[j],
                k <= lines@.len(),
                diags_view(diags@) == filter_some(all.take(k as int)),
            decreases lines@.len() - k,
        {
            let (line_no, line) = lines[k];
            proof {
                lemma_filter_some_take(all, k as int);
            }
            if !is_line_comment_line(line) {
                let m = find_first(&re, line);
                match match_diagnostic(&file.path, line_no, m) {
                    Some(d) => {
                        diags.push(d);
                        proof {
                            assert(diags_view(diags@) =~= diags_view(diags@.drop_last()) + seq![d@]);
                        }
                    },
                    None => {},
                }
            }
            k = k + 1;
        }
        proof {
            assert(all.take(lines@.len() as int) =~= all);
        }
        diags
    }
}

} // verus!
