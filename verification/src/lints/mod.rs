//! Built-in source-level lint passes.
use vstd::prelude::*;
use vstd::utf8::encode_utf8;

use crate::diagnostic::{diags_view, note_view, Diagnostic, DiagnosticView};
use crate::lint_meta::LintDef;
use crate::seq_util::filter_some;
use crate::source_file::SourceFile;
use crate::text::{line_ranges, text_between};

pub mod bare_abort;
pub mod clock_timestamp;
pub mod dynamic_field_access;
pub mod empty_public_entry;
pub mod public_fun_transfer;
pub mod test_only_in_sources;
pub mod todo_comment;
pub mod tx_context_sender;

verus! {

/// The lines of a text value (contents without terminators), in order.
pub open spec fn text_lines(text: Seq<char>) -> Seq<Seq<char>> {
    let b = encode_utf8(text);
    line_ranges(b).map_values(|r: (int, int)| text_between(b, r.0, r.1))
}

/// Diagnostics of a line-based lint: `f(line_number, line)` for each line, in order.
pub open spec fn per_line_diags(
    text: Seq<char>,
    f: spec_fn(int, Seq<char>) -> Option<DiagnosticView>,
) -> Seq<DiagnosticView> {
    let ls = text_lines(text);
    filter_some(Seq::new(ls.len(), |k: int| f(k + 1, ls[k])))
}

/// A source-level lint: its metadata and what it reports on one file.
pub trait SourceLintPass {
    spec fn spec_lint_def(&self) -> LintDef;

    /// The diagnostics this pass reports for a file with the given path, text and
    /// package-relative path.
    spec fn spec_check_file(
        &self,
        path: Seq<char>,
        text: Seq<char>,
        rel: Option<Seq<char>>,
    ) -> Seq<DiagnosticView>;

    fn lint_def(&self) -> (d: LintDef)
        ensures
            d == self.spec_lint_def(),
    ;

    fn check_file(&self, file: &SourceFile) -> (r: Vec<Diagnostic>)
        requires
            encode_utf8(file.text@).len() < u32::MAX,
        ensures
            diags_view(r@) == self.spec_check_file(
                file.path@,
                file.text@,
                note_view(file.rel_to_package),
            ),
    ;
}

} // verus!
