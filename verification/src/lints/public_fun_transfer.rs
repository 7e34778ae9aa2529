use vstd::prelude::*;
use vstd::utf8::{encode_utf8, is_char_boundary, valid_utf8};
use vstd::string::StringSliceAdditionalSpecFns;

use crate::diagnostic::{diag_spec, diags_view, note_view, span_spec, Diagnostic, DiagnosticView, Severity, Span};
use crate::lint_meta::{LintCategory, LintDef};
use crate::lints::{text_lines, SourceLintPass};
use crate::pattern::{compile_pattern, find_all, find_first, regex_all_matches, regex_compiles, regex_first_match, CompiledPattern, range_seq_view};
use crate::seq_util::{filter_some, lemma_filter_some_take};
use crate::source_file::{is_comment_line, is_line_comment_line, SourceFile};
use crate::text::{byte_index_to_line_col, find_byte_from, first_byte_from, lemma_boundary_after_ascii, lemma_boundary_in_suffix, lemma_first_byte_from, lemma_line_col_bounds, lemma_matching_brace, lemma_brace_close_from, line_col, matching_brace, matching_brace_end, substr, text_between};

verus! {

broadcast use vstd::utf8::group_utf8_lib;

pub const ID: &'static str = "public_fun_transfer";

pub const DOC: &'static str = "transfer::* inside a `public fun` body widens who may invoke object moves; confirm this matches your capability model.";

/// Start of a `public fun` declaration.
pub const PUBLIC_FUN_PATTERN: &'static str = r"\bpublic\s+fun\s+";

/// A call into the transfer API.
pub const TRANSFER_PATTERN: &'static str = r"\btransfer::(public_)?(transfer|share_object|freeze_object)\b";

pub const MESSAGE: &'static str = "transfer API appears inside `public fun` body";

pub fn lint() -> (d: LintDef)
    ensures
        d.id == ID,
        d.category == LintCategory::Security,
        d.doc == DOC,
{
    LintDef { id: ID, category: LintCategory::Security, doc: DOC }
}

/// Line `k` (0-based) of the text, or the empty line past the end.
pub open spec fn nth_line(text: Seq<char>, k: int) -> Seq<char> {
    if 0 <= k < text_lines(text).len() {
        text_lines(text)[k]
    } else {
        seq![]
    }
}

/// The diagnostic for a transfer call at bytes `[s, e)` of the body that starts at
/// `body_start`, unless the line where it starts is a whole-line comment.
pub open spec fn transfer_diag(path: Seq<char>, text: Seq<char>, body_start: int, s: int, e: int) -> Option<DiagnosticView> {
    let b = encode_utf8(text);
    let abs_start = body_start + s;
    let abs_end = body_start + e;
    let last = if abs_end >= 1 { abs_end - 1 } else { 0 };
    let (line_start, col_start) = line_col(b, abs_start);
    let (line_end, col_end) = line_col(b, last);
    if is_comment_line(nth_line(text, line_start - 1)) {
        None
    } else {
        Some(
            diag_spec(
                ID@,
                MESSAGE@,
                Severity::Warning,
                span_spec(
                    path,
                    line_start as u32,
                    line_end as u32,
                    col_start as u32,
                    col_end as u32,
                ),
            ),
        )
    }
}

/// Diagnostics for the transfer calls inside the body `{ ... }` spanning bytes
/// `[open, close]`.
pub open spec fn body_diags(path: Seq<char>, text: Seq<char>, open: int, close: int) -> Seq<DiagnosticView> {
    let ms = regex_all_matches(TRANSFER_PATTERN@, text_between(encode_utf8(text), open, close + 1));
    filter_some(Seq::new(ms.len(), |k: int| transfer_diag(path, text, open, ms[k].0, ms[k].1)))
}

/// Scan from byte `search`: find the next `public fun`, the first `{` after it and its
/// matching `}`; report the transfer calls in that body and continue after it. When
/// the brace never closes, continue after the `public fun` match instead.
pub open spec fn scan_from(path: Seq<char>, text: Seq<char>, search: int) -> Seq<DiagnosticView>
    decreases encode_utf8(text).len() + 1 - search,
{
    let b = encode_utf8(text);
    if search < 0 || search > b.len() {
        seq![]
    } else {
        match regex_first_match(PUBLIC_FUN_PATTERN@, text_between(b, search, b.len() as int)) {
            None => seq![],
            Some((ms, me)) => {
                if !(0 <= ms <= me <= b.len() - search) {
                    seq![]
                } else {
                    match first_byte_from(b, search + ms, 123) {
                        None => seq![],
                        Some(open) => {
                            proof {
                                lemma_first_byte_from(b, search + ms, 123);
                            }
                            match matching_brace(b, open) {
                                None => {
                                    if me > 0 {
                                        scan_from(path, text, search + me)
                                    } else {
                                        seq![]
                                    }
                                },
                                Some(close) => {
                                    proof {
                                        lemma_brace_close_from(b, open, open);
                                    }
                                    body_diags(path, text, open, close) + scan_from(
                                        path,
                                        text,
                                        close + 1,
                                    )
                                },
                            }
                        },
                    }
                }
            },
        }
    }
}

pub open spec fn file_diags(path: Seq<char>, text: Seq<char>) -> Seq<DiagnosticView> {
    if regex_compiles(TRANSFER_PATTERN@) && regex_compiles(PUBLIC_FUN_PATTERN@) {
        scan_from(path, text, 0)
    } else {
        seq![]
    }
}

pub struct Pass;

/// The diagnostic for a transfer call at bytes `[s, e)` of the body that starts at byte
/// `body_start` of the file; `lines` are the file's numbered lines.
pub fn transfer_diagnostic(
    file: &SourceFile,
    lines: &Vec<(u32, &str)>,
    body_start: usize,
    s: usize,
    e: usize,
) -> (r: Option<Diagnostic>)
    requires
        encode_utf8(file.text@).len() < u32::MAX,
        s <= e,
        body_start + e <= encode_utf8(file.text@).len(),
        lines@.len() == text_lines(file.text@).len(),
        forall|j: int|
            0 <= j < lines@.len() ==> (#[trigger] lines@[j]).0 == j + 1 && lines@[j].1@
                == text_lines(file.text@)[j],
    ensures
        match r {
            Some(d) => transfer_diag(file.path@, file.text@, body_start as int, s as int, e as int) == Some(d@),
            None => transfer_diag(file.path@, file.text@, body_start as int, s as int, e as int) is None,
        },
{
    let text = file.text.as_str();
    let ghost b = encode_utf8(file.text@);
    proof {
        assert(b == text.spec_bytes());
    }
    let abs_start = body_start + s;
    let abs_end = body_start + e;
    let (line_start, col_start) = byte_index_to_line_col(text, abs_start);
    let last = if abs_end >= 1 {
        abs_end - 1
    } else {
        0
    };
    let (line_end, col_end) = byte_index_to_line_col(text, last);
    proof {
        if abs_start < b.len() {
            lemma_line_col_bounds(b, abs_start as int);
        } else {
            lemma_line_col_bounds(b, b.len() as int);
        }
        reveal_strlit("");
    }
    let idx = (line_start - 1) as usize;
    let line_text: &str = if idx < lines.len() {
        lines[idx].1
    } else {
        ""
    };
    proof {
        assert(line_text@ == nth_line(file.text@, line_start - 1));
    }
    if !is_line_comment_line(line_text) {
        Some(
            Diagnostic::new(
                ID,
                MESSAGE,
                Severity::Warning,
                Span { path: file.path.clone(), line_start, line_end, col_start, col_end },
            ),
        )
    } else {
        None
    }
}

/// Diagnostics for the transfer calls in the body spanning bytes `[open, close]`.
fn check_body(
    file: &SourceFile,
    lines: &Vec<(u32, &str)>,
    transfer_re: &CompiledPattern,
    open: usize,
    close: usize,
    diags: &mut Vec<Diagnostic>,
)
    requires
        transfer_re@ == TRANSFER_PATTERN@,
        encode_utf8(file.text@).len() < u32::MAX,
        open <= close < encode_utf8(file.text@).len(),
        encode_utf8(file.text@)[open as int] == 123,
        encode_utf8(file.text@)[close as int] == 125,
        lines@.len() == text_lines(file.text@).len(),
        forall|j: int|
            0 <= j < lines@.len() ==> (#[trigger] lines@[j]).0 == j + 1 && lines@[j].1@
                == text_lines(file.text@)[j],
    ensures
        diags_view(final(diags)@) == diags_view(old(diags)@) + body_diags(
            file.path@,
            file.text@,
            open as int,
            close as int,
        ),
{
    let text = file.text.as_str();
    let ghost b = encode_utf8(file.text@);
    proof {
        assert(b == text.spec_bytes());
        lemma_boundary_after_ascii(b, open as int);
        lemma_boundary_after_ascii(b, close as int);
    }
    let body = substr(text, open, close + 1);
    let ms = find_all(transfer_re, body);
    let ghost spec_ms = regex_all_matches(TRANSFER_PATTERN@, text_between(b, open as int, close + 1));
    let ghost all = Seq::new(
        spec_ms.len(),
        |k: int| transfer_diag(file.path@, file.text@, open as int, spec_ms[k].0, spec_ms[k].1),
    );
    let ghost start = diags_view(diags@);
    let mut k: usize = 0;
    while k < ms.len()
        invariant
            b == encode_utf8(file.text@),
            b == text.spec_bytes(),
            b.len() < u32::MAX,
            open <= close < b.len(),
            body.spec_bytes() == b.subrange(open as int, close + 1),
            range_seq_view(ms@) == spec_ms,
            forall|j: int|
                0 <= j < ms@.len() ==> crate::pattern::match_in(
                    body.spec_bytes(),
                    #[trigger] ms@[j].0 as int,
                    ms@[j].1 as int,
                ),
            all == Seq::new(
                spec_ms.len(),
                |k: int| transfer_diag(file.path@, file.text@, open as int, spec_ms[k].0, spec_ms[k].1),
            ),
            lines@.len() == text_lines(file.text@).len(),
            forall|j: int|
                0 <= j < lines@.len() ==> (#[trigger] lines@[j]).0 == j + 1 && lines@[j].1@
                    == text_lines(file.text@)[j],
            k <= ms@.len(),
            diags_view(diags@) == start + filter_some(all.take(k as int)),
        decreases ms@.len() - k,
    {
        let (s, e) = ms[k];
        proof {
            lemma_filter_some_take(all, k as int);
            assert(spec_ms[k as int] == (s as int, e as int));
            assert(crate::pattern::match_in(body.spec_bytes(), s as int, e as int));
        }
        let ghost view_before = diags_view(diags@);
        proof {
            assert(open + e <= b.len());
        }
        match transfer_diagnostic(file, lines, open, s, e) {
            Some(d) => {
                proof {
                    assert(all[k as int] == Some(d@));
                }
                diags.push(d);
                proof {
                    assert(diags_view(diags@) =~= view_before + seq![d@]);
                    assert(filter_some(all.take(k + 1)) == filter_some(all.take(k as int)) + seq![d@]);
                }
            },
            None => {
                proof {
                    assert(all[k as int] is None);
                    assert(filter_some(all.take(k + 1)) =~= filter_some(all.take(k as int)));
                }
            },
        }
        proof {
            assert(diags_view(diags@) =~= start + filter_some(all.take(k + 1)));
        }
        k = k + 1;
    }
    proof {
        assert(all.take(ms@.len() as int) =~= all);
    }
}

/// One step of the scan from byte `search`: reports the next `public fun` body and
/// returns where the scan continues, or `None` when it ends here.
fn scan_one(
    file: &SourceFile,
    lines: &Vec<(u32, &str)>,
    public_fun_re: &CompiledPattern,
    transfer_re: &CompiledPattern,
    search: usize,
    diags: &mut Vec<Diagnostic>,
) -> (next: Option<usize>)
    requires
        transfer_re@ == TRANSFER_PATTERN@,
        public_fun_re@ == PUBLIC_FUN_PATTERN@,
        encode_utf8(file.text@).len() < u32::MAX,
        search <= encode_utf8(file.text@).len(),
        is_char_boundary(encode_utf8(file.text@), search as int),
        lines@.len() == text_lines(file.text@).len(),
        forall|j: int|
            0 <= j < lines@.len() ==> (#[trigger] lines@[j]).0 == j + 1 && lines@[j].1@
                == text_lines(file.text@)[j],
    ensures
        match next {
            None => scan_from(file.path@, file.text@, search as int) == Seq::<DiagnosticView>::empty()
                && final(diags)@ == old(diags)@,
            Some(n) => {
                &&& search < n <= encode_utf8(file.text@).len()
                &&& is_char_boundary(encode_utf8(file.text@), n as int)
                &&& diags_view(final(diags)@) + scan_from(file.path@, file.text@, n as int)
                    == diags_view(old(diags)@) + scan_from(file.path@, file.text@, search as int)
            },
        },
{
    let text = file.text.as_str();
    let bytes = text.as_bytes();
    let len = bytes.len();
    let ghost b = encode_utf8(file.text@);
    let ghost path = file.path@;
    let ghost t = file.text@;
    proof {
        vstd::utf8::is_char_boundary_start_end_of_seq(b);
    }
    let tail = substr(text, search, len);
    let (ms, me) = match find_first(public_fun_re, tail) {
        None => {
            return None;
        },
        Some(m) => m,
    };
    proof {
        assert(tail.spec_bytes() == b.subrange(search as int, len as int));
        lemma_boundary_in_suffix(b, search as int, ms as int);
        lemma_boundary_in_suffix(b, search as int, me as int);
    }
    let abs = search + ms;
    let open = match find_byte_from(bytes, abs, 123) {
        None => {
            return None;
        },
        Some(o) => o,
    };
    proof {
        lemma_first_byte_from(b, abs as int, 123);
    }
    let close_opt = matching_brace_end(bytes, open);
    proof {
        lemma_matching_brace(b, open as int, crate::text::opt_int(close_opt));
    }
    match close_opt {
        None => {
            if me == 0 {
                return None;
            }
            Some(search + me)
        },
        Some(close) => {
            let ghost before = diags_view(diags@);
            check_body(file, lines, transfer_re, open, close, diags);
            proof {
                lemma_boundary_after_ascii(b, close as int);
                assert(scan_from(path, t, search as int) == body_diags(path, t, open as int, close as int)
                    + scan_from(path, t, close + 1));
                assert(diags_view(diags@) + scan_from(path, t, close + 1) =~= before + scan_from(
                    path,
                    t,
                    search as int,
                ));
            }
            Some(close + 1)
        },
    }
}

impl SourceLintPass for Pass {
    open spec fn spec_lint_def(&self) -> LintDef {
        LintDef { id: ID, category: LintCategory::Security, doc: DOC }
    }

    open spec fn spec_check_file(
        &self,
        path: Seq<char>,
        text: Seq<char>,
        rel: Option<Seq<char>>,
    ) -> Seq<DiagnosticView> {
        file_diags(path, text)
    }

    fn lint_def(&self) -> (d: LintDef) {
        lint()
    }

    fn check_file(&self, file: &SourceFile) -> (r: Vec<Diagnostic>) {
        let transfer_re = match compile_pattern(TRANSFER_PATTERN) {
            Some(re) => re,
            None => {
                return Vec::new();
            },
        };
        let public_fun_re = match compile_pattern(PUBLIC_FUN_PATTERN) {
            Some(re) => re,
            None => {
                return Vec::new();
            },
        };
        let text = file.text.as_str();
        let len = text.as_bytes().len();
        let lines = file.lines();
        let ghost b = encode_utf8(file.text@);
        let ghost path = file.path@;
        let ghost t = file.text@;
        proof {
            vstd::utf8::is_char_boundary_start_end_of_seq(b);
        }
        let mut diags: Vec<Diagnostic> = Vec::new();
        let mut search: usize = 0;
        loop
            invariant
                b == encode_utf8(file.text@),
                len == b.len(),
                b.len() < u32::MAX,
                path == file.path@,
                t == file.text@,
                transfer_re@ == TRANSFER_PATTERN@,
                public_fun_re@ == PUBLIC_FUN_PATTERN@,
                regex_compiles(TRANSFER_PATTERN@) && regex_compiles(PUBLIC_FUN_PATTERN@),
                lines@.len() == text_lines(file.text@).len(),
                forall|j: int|
                    0 <= j < lines@.len() ==> (#[trigger] lines@[j]).0 == j + 1 && lines@[j].1@
                        == text_lines(file.text@)[j],
                search <= len,
                is_char_boundary(b, search as int),
                diags_view(diags@) + scan_from(path, t, search as int) == scan_from(path, t, 0),
            ensures
                diags_view(diags@) == scan_from(path, t, 0),
            decreases len - search,
        {
            let ghost before = diags_view(diags@);
            match scan_one(file, &lines, &public_fun_re, &transfer_re, search, &mut diags) {
                None => {
                    proof {
                        assert(diags_view(diags@) + seq![] =~= diags_view(diags@));
                    }
                    break ;
                },
                Some(next) => {
                    search = next;
                },
            }
        }
        proof {
            assert(file_diags(path, t) == scan_from(path, t, 0));
        }
        diags
    }
}

} // verus!
