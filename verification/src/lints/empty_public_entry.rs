use vstd::prelude::*;
use vstd::utf8::encode_utf8;
use vstd::string::StringSliceAdditionalSpecFns;

use crate::diagnostic::{diag_spec, diags_view, note_view, span_spec, Diagnostic, DiagnosticView, Severity, Span};
use crate::lint_meta::{LintCategory, LintDef};
use crate::lints::SourceLintPass;
use crate::pattern::{compile_pattern, find_all, regex_all_matches, regex_compiles};
use crate::source_file::SourceFile;
use crate::text::{byte_index_to_line_col, line_col};

verus! {

pub const ID: &'static str = "empty_public_entry";

pub const DOC: &'static str = "A public entry function with an empty body is almost certainly a mistake or unsafe stub.";

pub const PATTERN: &'static str = r"(?s)public\s+entry\s+fun\s+[A-Za-z0-9_]+\s*\([^)]*\)\s*:\s*[^;{]+\{\s*\}";

pub const MESSAGE: &'static str = "public entry function has an empty body";

pub fn lint() -> (d: LintDef)
    ensures
        d.id == ID,
        d.category == LintCategory::Correctness,
        d.doc == DOC,
{
    LintDef { id: ID, category: LintCategory::Correctness, doc: DOC }
}

/// The diagnostic for a match spanning bytes `[s, e)` of the text `b`: it runs from the
/// match's first character to its last one.
pub open spec fn match_diag(path: Seq<char>, b: Seq<u8>, s: int, e: int) -> DiagnosticView {
    let last = if e >= 1 { e - 1 } else { 0 };
    diag_spec(
        ID@,
        MESSAGE@,
        Severity::Warning,
        span_spec(
            path,
            line_col(b, s).0 as u32,
            line_col(b, last).0 as u32,
            line_col(b, s).1 as u32,
            line_col(b, last).1 as u32,
        ),
    )
}

/// The diagnostic for a match spanning bytes `[s, e)` of `text`.
pub fn match_diagnostic(path: &String, text: &str, s: usize, e: usize) -> (d: Diagnostic)
    requires
        text.spec_bytes().len() < u32::MAX,
        s <= e <= text.spec_bytes().len(),
    ensures
        d@ == match_diag(path@, text.spec_bytes(), s as int, e as int),
{
    let (line_start, col_start) = byte_index_to_line_col(text, s);
    let last = if e >= 1 {
        e - 1
    } else {
        0
    };
    let (line_end, col_end) = byte_index_to_line_col(text, last);
    Diagnostic::new(
        ID,
        MESSAGE,
        Severity::Warning,
        Span { path: path.clone(), line_start, line_end, col_start, col_end },
    )
}

/// One diagnostic per match of an empty-bodied `public entry fun`, in text order.
pub open spec fn file_diags(path: Seq<char>, text: Seq<char>) -> Seq<DiagnosticView> {
    if regex_compiles(PATTERN@) {
        let ms = regex_all_matches(PATTERN@, text);
        Seq::new(ms.len(), |k: int| match_diag(path, encode_utf8(text), ms[k].0, ms[k].1))
    } else {
        seq![]
    }
}

pub struct Pass;

impl SourceLintPass for Pass {
    open spec fn spec_lint_def(&self) -> LintDef {
        LintDef { id: ID, category: LintCategory::Correctness, doc: DOC }
    }

    open spec fn spec_check_file(
        &self,
        path: Seq<char>,
        text: Seq<char>,
        rel: Option<Seq<char>>,
    ) -> Seq<DiagnosticView> {
        file_diags(path, text)
    }

    fn lint_def(&self) -> (d: LintDef) {
        lint()
    }

    fn check_file(&self, file: &SourceFile) -> (r: Vec<Diagnostic>) {
        let re = match compile_pattern(PATTERN) {
            Some(re) => re,
            None => {
                return Vec::new();
            },
        };
        let text = file.text.as_str();
        let ms = find_all(&re, text);
        let ghost b = encode_utf8(file.text@);
        let ghost spec_ms = regex_all_matches(PATTERN@, file.text@);
        let mut diags: Vec<Diagnostic> = Vec::new();
        let mut k: usize = 0;
        while k < ms.len()
            invariant
                b == encode_utf8(file.text@),
                b == text.spec_bytes(),
                b.len() < u32::MAX,
                spec_ms == regex_all_matches(PATTERN@, file.text@),
                crate::pattern::range_seq_view(ms@) == spec_ms,
                forall|j: int|
                    0 <= j < ms@.len() ==> crate::pattern::match_in(b, #[trigger] ms@[j].0 as int, ms@[j].1 as int),
                k <= ms@.len(),
                diags@.len() == k,
                forall|j: int|
                    0 <= j < k ==> (#[trigger] diags@[j])@ == match_diag(
                        file.path@,
                        b,
                        spec_ms[j].0,
                        spec_ms[j].1,
                    ),
            decreases ms@.len() - k,
        {
            let (s, e) = ms[k];
            proof {
                assert(spec_ms[k as int] == (s as int, e as int));
            }
            let d = match_diagnostic(&file.path, text, s, e);
            diags.push(d);
            k = k + 1;
        }
        proof {
            assert(diags_view(diags@) =~= file_diags(file.path@, file.text@));
        }
        diags
    }
}

} // verus!
