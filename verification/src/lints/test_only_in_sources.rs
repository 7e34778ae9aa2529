use vstd::prelude::*;
use vstd::utf8::{encode_utf8, is_ascii_chars_encode_utf8};
use vstd::string::StringSliceAdditionalSpecFns;

use crate::diagnostic::{diag_spec, diags_view, note_view, span_spec, Diagnostic, DiagnosticView, Severity, Span};
use crate::lint_meta::{LintCategory, LintDef};
use crate::lints::{per_line_diags, text_lines, SourceLintPass};
use crate::seq_util::{filter_some, lemma_filter_some_take};
use crate::source_file::{has_prefix, is_comment_line, is_line_comment_line, trim_start, trimmed_starts_with, SourceFile};
use crate::text::{contains_bytes, find_bytes, first_occurrence, lemma_first_occurrence_bounds, starts_with_bytes, occurs_at};

verus! {

pub const ID: &'static str = "test_only_in_sources";

pub const DOC: &'static str = "`#[test_only]` in non-test paths is easy to ship accidentally; prefer `tests/` modules or `#[test_only]` only in test-only files.";

/// The attribute text the pass looks for at the start of a line.
pub const NEEDLE: &'static str = "#[test_only";

pub const MESSAGE: &'static str = "`#[test_only]` in a non-`tests/` source path";

pub fn lint() -> (d: LintDef)
    ensures
        d.id == ID,
        d.category == LintCategory::Nursery,
        d.doc == DOC,
{
    LintDef { id: ID, category: LintCategory::Nursery, doc: DOC }
}

/// The file lives under the package's Move `tests/` tree: its package-relative path
/// starts with `tests/` or contains `/tests/`. Unknown relative paths are not.
pub open spec fn in_test_tree(rel: Option<Seq<char>>) -> bool {
    match rel {
        None => false,
        Some(r) => starts_with_bytes(encode_utf8(r), encode_utf8("tests/"@)) || contains_bytes(
            encode_utf8(r),
            encode_utf8("/tests/"@),
        ),
    }
}

/// What the pass reports on one line (1-based number `n`): a line that starts with
/// `#[test_only` after leading whitespace, outside whole-line comments.
pub open spec fn line_diag(path: Seq<char>) -> spec_fn(int, Seq<char>) -> Option<DiagnosticView> {
    |n: int, line: Seq<char>|
        if is_comment_line(line) || !has_prefix(trim_start(line), NEEDLE@) {
            None
        } else {
            let col_start = match first_occurrence(encode_utf8(line), encode_utf8(NEEDLE@)) {
                Some(i) => i + 1,
                None => 1,
            };
            Some(
                diag_spec(
                    ID@,
                    MESSAGE@,
                    Severity::Warning,
                    span_spec(
                        path,
                        n as u32,
                        n as u32,
                        col_start as u32,
                        (col_start + encode_utf8(NEEDLE@).len()) as u32,
                    ),
                ),
            )
        }
}

pub open spec fn file_diags(path: Seq<char>, text: Seq<char>, rel: Option<Seq<char>>) -> Seq<DiagnosticView> {
    if in_test_tree(rel) {
        seq![]
    } else {
        per_line_diags(text, line_diag(path))
    }
}

/// True when this file lives under the package's Move `tests/` tree.
fn path_looks_like_test_tree(file: &SourceFile) -> (r: bool)
    ensures
        r == in_test_tree(note_view(file.rel_to_package)),
{
    match &file.rel_to_package {
        None => false,
        Some(rel) => {
            let b = rel.as_str().as_bytes();
            let prefix = "tests/".as_bytes();
            let starts = if prefix.len() <= b.len() {
                match find_bytes(b, prefix) {
                    Some(i) => i == 0,
                    None => false,
                }
            } else {
                false
            };
            proof {
                lemma_first_occurrence_bounds(b@, prefix@, 0);
                if occurs_at(b@, prefix@, 0) {
                    assert(crate::text::first_occurrence(b@, prefix@) == Some(0int));
                }
            }
            if starts {
                return true;
            }
            find_bytes(b, "/tests/".as_bytes()).is_some()
        },
    }
}

pub struct Pass;

impl SourceLintPass for Pass {
    open spec fn spec_lint_def(&self) -> LintDef {
        LintDef { id: ID, category: LintCategory::Nursery, doc: DOC }
    }

    open spec fn spec_check_file(
        &self,
        path: Seq<char>,
        text: Seq<char>,
        rel: Option<Seq<char>>,
    ) -> Seq<DiagnosticView> {
        file_diags(path, text, rel)
    }

    fn lint_def(&self) -> (d: LintDef) {
        lint()
    }

    fn check_file(&self, file: &SourceFile) -> (r: Vec<Diagnostic>) {
        if path_looks_like_test_tree(file) {
            return Vec::new();
        }
        let needle = NEEDLE.as_bytes();
        proof {
            reveal_strlit("#[test_only");
            is_ascii_chars_encode_utf8(NEEDLE@);
            assert(needle@.len() == 11);
        }
        let lines = file.lines();
        let ghost ls = text_lines(file.text@);
        let ghost f = line_diag(file.path@);
        let ghost all = Seq::new(ls.len(), |k: int| f(k + 1, ls[k]));
        let mut diags: Vec<Diagnostic> = Vec::new();
        let mut k: usize = 0;
        while k < lines.len()
            invariant
                lines@.len() == ls.len(),
                ls == text_lines(file.text@),
                f == line_diag(file.path@),
                all == Seq::new(ls.len(), |k: int| f(k + 1, ls[k])),
                needle@ == encode_utf8(NEEDLE@),
                needle@.len() == 11,
                encode_utf8(file.text@).len() < u32::MAX,
                forall|j: int|
                    0 <= j < lines@.len() ==> (#[trigger] lines@[j]).1.spec_bytes().len()
                        <= encode_utf8(file.text@).len(),
                forall|j: int|
                    0 <= j < lines@.len() ==> (#[trigger] lines@[j]).0 == j + 1 && lines@[j].1@
                        == ls[j],
                k <= lines@.len(),
                diags_view(diags@) == filter_some(all.take(k as int)),
            decreases lines@.len() - k,
        {
            let (line_no, line) = lines[k];
            proof {
                lemma_filter_some_take(all, k as int);
            }
            if !is_line_comment_line(line) && trimmed_starts_with(line, NEEDLE) {
                let found = find_bytes(line.as_bytes(), needle);
                proof {
                    lemma_first_occurrence_bounds(line.spec_bytes(), needle@, 0);
                }
                let col_start: u32 = match found {
                    Some(i) => i as u32 + 1,
                    None => 1,
                };
                let col_end = col_start + needle.len() as u32;
                let d = Diagnostic::new(
                    ID,
                    MESSAGE,
                    Severity::Warning,
                    Span {
                        path: file.path.clone(),
                        line_start: line_no,
                        line_end: line_no,
                        col_start,
                        col_end,
                    },
                );
                diags.push(d);
                proof {
                    assert(diags_view(diags@) =~= diags_view(diags@.drop_last()) + seq![d@]);
                }
            }
            k = k + 1;
        }
        proof {
            assert(all.take(lines@.len() as int) =~= all);
        }
        diags
    }
}

} // verus!
