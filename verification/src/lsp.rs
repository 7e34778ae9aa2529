//! Diagnostics as a language server publishes them: 0-based positions and LSP severities.
use vstd::prelude::*;
use vstd::hash_map::StringHashMap;
use vstd::utf8::encode_utf8;

use crate::config::{strings_view, SuiClippyConfig};
use crate::diagnostic::{diags_view, Diagnostic, DiagnosticView, Severity};
use crate::paths::{is_move_file, path_extension};
use vstd::string::StringExecFns;
use crate::lint_engine::{package_rel, package_source_file, run_source_lints, source_report, LintRunOptions};

verus! {

/// LSP diagnostic severities.
#[derive(Clone, Copy, Debug, PartialEq, Eq, Structural)]
pub enum LspSeverity {
    Error,
    Warning,
    Information,
    Hint,
}

/// A 0-based line and character position.
#[derive(Clone, Copy, Debug, PartialEq, Eq, Structural)]
pub struct LspPosition {
    pub line: u32,
    pub character: u32,
}

/// A range between two positions.
#[derive(Clone, Copy, Debug, PartialEq, Eq, Structural)]
pub struct LspRange {
    pub start: LspPosition,
    pub end: LspPosition,
}

/// A diagnostic as published to the editor.
#[derive(Debug, Clone)]
pub struct LspDiagnostic {
    pub range: LspRange,
    pub severity: LspSeverity,
    /// The lint id.
    pub code: String,
    /// Always `sui-clippy`.
    pub source: String,
    pub message: String,
}

/// Mathematical value of an [`LspDiagnostic`].
pub struct LspDiagnosticView {
    pub range: LspRange,
    pub severity: LspSeverity,
    pub code: Seq<char>,
    pub source: Seq<char>,
    pub message: Seq<char>,
}

impl View for LspDiagnostic {
    type V = LspDiagnosticView;

    open spec fn view(&self) -> LspDiagnosticView {
        LspDiagnosticView {
            range: self.range,
            severity: self.severity,
            code: self.code@,
            source: self.source@,
            message: self.message@,
        }
    }
}

pub open spec fn lsp_view(ds: Seq<LspDiagnostic>) -> Seq<LspDiagnosticView> {
    ds.map_values(|d: LspDiagnostic| d@)
}

/// The LSP severity of a diagnostic severity.
pub open spec fn lsp_severity_of(s: Severity) -> LspSeverity {
    match s {
        Severity::Error => LspSeverity::Error,
        Severity::Warning => LspSeverity::Warning,
        Severity::Note => LspSeverity::Information,
        Severity::Allow => LspSeverity::Hint,
    }
}

/// Severities reach the editor unchanged in meaning: the mapping is one-to-one, errors
/// and only errors are published as errors, and allowed diagnostics as hints.
pub proof fn lemma_lsp_severity_faithful()
    ensures
        forall|a: Severity, b: Severity| #[trigger] lsp_severity_of(a) == #[trigger] lsp_severity_of(b) ==> a == b,
        forall|a: Severity| (#[trigger] lsp_severity_of(a) == LspSeverity::Error) <==> (a == Severity::Error),
        forall|a: Severity| (#[trigger] lsp_severity_of(a) == LspSeverity::Warning) <==> (a == Severity::Warning),
        forall|a: Severity| (#[trigger] lsp_severity_of(a) == LspSeverity::Information) <==> (a == Severity::Note),
        forall|a: Severity| (#[trigger] lsp_severity_of(a) == LspSeverity::Hint) <==> (a == Severity::Allow),
{
}

/// A 1-based line or column as a 0-based one (1-based 0 stays 0).
pub open spec fn zero_based(n: u32) -> u32 {
    if n == 0 {
        0
    } else {
        (n - 1) as u32
    }
}

/// The published form of a diagnostic.
pub open spec fn lsp_diagnostic_of(d: DiagnosticView) -> LspDiagnosticView {
    LspDiagnosticView {
        range: LspRange {
            start: LspPosition { line: zero_based(d.span.line_start), character: zero_based(d.span.col_start) },
            end: LspPosition { line: zero_based(d.span.line_end), character: zero_based(d.span.col_end) },
        },
        severity: lsp_severity_of(d.severity),
        code: d.lint_id,
        source: "sui-clippy"@,
        message: d.message,
    }
}

/// The published form of each diagnostic, in order.
pub open spec fn lsp_all(ds: Seq<DiagnosticView>) -> Seq<LspDiagnosticView> {
    ds.map_values(|d: DiagnosticView| lsp_diagnostic_of(d))
}

/// The source name diagnostics are published under.
pub const LSP_SOURCE: &'static str = "sui-clippy";

/// Converts a diagnostic to its published form.
pub fn sc_to_lsp(d: Diagnostic) -> (r: LspDiagnostic)
    ensures
        r@ == lsp_diagnostic_of(d@),
        (r.severity == LspSeverity::Error) <==> (d.severity == Severity::Error),
        (r.severity == LspSeverity::Warning) <==> (d.severity == Severity::Warning),
        (r.severity == LspSeverity::Information) <==> (d.severity == Severity::Note),
        (r.severity == LspSeverity::Hint) <==> (d.severity == Severity::Allow),
        d.span.line_start >= 1 ==> r.range.start.line + 1 == d.span.line_start,
        d.span.col_start >= 1 ==> r.range.start.character + 1 == d.span.col_start,
        d.span.line_end >= 1 ==> r.range.end.line + 1 == d.span.line_end,
        d.span.col_end >= 1 ==> r.range.end.character + 1 == d.span.col_end,
        r.code@ == d.lint_id@,
        r.message@ == d.message@,
{
    proof {
        lemma_lsp_severity_faithful();
    }
    let range = LspRange {
        start: LspPosition {
            line: d.span.line_start.saturating_sub(1),
            character: d.span.col_start.saturating_sub(1),
        },
        end: LspPosition { line: d.span.line_end.saturating_sub(1), character: d.span.col_end.saturating_sub(1) },
    };
    let severity = match d.severity {
        Severity::Error => LspSeverity::Error,
        Severity::Warning => LspSeverity::Warning,
        Severity::Note => LspSeverity::Information,
        Severity::Allow => LspSeverity::Hint,
    };
    let source = LSP_SOURCE.to_string();
    proof {
        assert(source@ == "sui-clippy"@);
    }
    LspDiagnostic { range, severity, code: d.lint_id, source, message: d.message }
}

/// The path the `url` crate reads from a URI (`Url::parse` then `to_file_path`), as a
/// string; `None` when either step fails or the path is not UTF-8.
pub uninterp spec fn uri_file_path(uri: Seq<char>) -> Option<Seq<char>>;

/// `url::Url::parse(uri)` followed by `Url::to_file_path`.
/// Trusted: the result is the named path of `uri`.
#[verifier::external_body]
fn file_path_of_uri(uri: &str) -> (r: Option<String>)
    ensures
        match r {
            Some(p) => uri_file_path(uri@) == Some(p@),
            None => uri_file_path(uri@) is None,
        },
{
    url::Url::parse(uri).ok().and_then(|u| u.to_file_path().ok()).and_then(|p| p.to_str().map(|s| s.to_string()))
}

/// Why a document could not be linted.
#[derive(Debug, Clone)]
pub struct LspError {
    pub message: String,
}

/// The message for a URI that names no local file.
pub const NOT_A_FILE_URI: &'static str = "only file:// URIs are supported";

/// The local file a document URI names.
pub fn uri_to_path(uri: &str) -> (r: Result<String, LspError>)
    ensures
        match r {
            Ok(p) => uri_file_path(uri@) == Some(p@),
            Err(e) => uri_file_path(uri@) is None && e.message@ == NOT_A_FILE_URI@,
        },
{
    match file_path_of_uri(uri) {
        Some(p) => Ok(p),
        None => Err(LspError { message: NOT_A_FILE_URI.to_string() }),
    }
}

/// Lints a buffer the editor has open, as the server does on open and save: the file's
/// relative path is taken against the package root, no command-line overrides apply, and
/// allowed diagnostics are left out.
pub fn lint_buffer(path: String, text: String, package_root: &str, config: &SuiClippyConfig) -> (r: Vec<
    LspDiagnostic,
>)
    requires
        encode_utf8(text@).len() < u32::MAX,
        crate::config::patterns_fit(config.exclude@),
    ensures
        lsp_view(r@) == lsp_all(source_report(
            path@,
            text@,
            package_rel(path@, package_root@),
            package_root@,
            strings_view(config.exclude@),
            config.lint_levels@,
            Map::empty(),
            false,
        )),
{
    let sf = package_source_file(path, text, package_root);
    let options = LintRunOptions { include_allowed: false, cli_overrides: StringHashMap::new() };
    let ds = run_source_lints(&sf, package_root, config, &options);
    let ghost dv = diags_view(ds@);
    let mut out: Vec<LspDiagnostic> = Vec::new();
    let mut ds = ds;
    let mut rest: Vec<Diagnostic> = Vec::new();
    // reversed, so that popping yields the diagnostics in order
    while ds.len() > 0
        invariant
            rest@.len() + ds@.len() == dv.len(),
            forall|j: int| 0 <= j < ds@.len() ==> (#[trigger] ds@[j])@ == dv[j],
            forall|j: int| 0 <= j < rest@.len() ==> (#[trigger] rest@[j])@ == dv[dv.len() - 1 - j],
        decreases ds@.len(),
    {
        let x = ds.pop().unwrap();
        rest.push(x);
    }
    while rest.len() > 0
        invariant
            out@.len() + rest@.len() == dv.len(),
            forall|j: int| 0 <= j < rest@.len() ==> (#[trigger] rest@[j])@ == dv[dv.len() - 1 - j],
            lsp_view(out@) == lsp_all(dv.take(out@.len() as int)),
        decreases rest@.len(),
    {
        let d = rest.pop().unwrap();
        let ghost k = out@.len() as int;
        let ghost before = out@;
        let ghost dd = d@;
        out.push(sc_to_lsp(d));
        proof {
            assert(dv[k] == dd);
            assert forall|i: int| 0 <= i < k + 1 implies lsp_view(out@)[i] == lsp_all(dv.take(k + 1))[i] by {
                if i < k {
                    assert(out@[i] == before[i]);
                    assert(lsp_view(before)[i] == lsp_all(dv.take(k))[i]);
                }
            }
            assert(lsp_view(out@) =~= lsp_all(dv.take(k + 1)));
        }
    }
    proof {
        assert(dv.take(dv.len() as int) =~= dv);
    }
    out
}

/// The message for a Move file that lies in no package.
pub const NO_PACKAGE: &'static str = "no Move.toml above ";

/// The message for a buffer past the library's limits (a text of 4 GiB or more, whose
/// line and column numbers do not fit in 32 bits, or an exclude pattern of 1 GiB or more).
pub const TOO_LARGE: &'static str = "buffer or exclude pattern too large to lint: ";

/// The buffer and the configuration are within the limits the lints work in.
pub open spec fn within_limits(text: Seq<char>, config: SuiClippyConfig) -> bool {
    encode_utf8(text).len() < u32::MAX && crate::config::patterns_fit(config.exclude@)
}

/// What the server publishes for a buffer: nothing for a file that is not a Move source
/// file; an error for a Move file with no package root above it, or past the limits;
/// otherwise the buffer's diagnostics against that root.
pub fn buffer_result(
    path: String,
    text: String,
    package_root: Option<&str>,
    config: &SuiClippyConfig,
) -> (r: Result<Vec<LspDiagnostic>, LspError>)
    ensures
        path_extension(path@) != Some("move"@) ==> (r matches Ok(v) && v@.len() == 0),
        (path_extension(path@) == Some("move"@) && package_root is None) ==> (r matches Err(e) && e.message@
            == NO_PACKAGE@ + path@),
        (path_extension(path@) == Some("move"@) && package_root is Some && !within_limits(text@, *config))
            ==> (r matches Err(e) && e.message@ == TOO_LARGE@ + path@),
        (path_extension(path@) == Some("move"@) && package_root is Some && within_limits(text@, *config))
            ==> (r matches Ok(v) && lsp_view(v@) == lsp_all(
            source_report(
                path@,
                text@,
                package_rel(path@, package_root.unwrap()@),
                package_root.unwrap()@,
                strings_view(config.exclude@),
                config.lint_levels@,
                Map::empty(),
                false,
            ),
        )),
{
    if !is_move_file(path.as_str()) {
        return Ok(Vec::new());
    }
    match package_root {
        None => {
            let mut message = NO_PACKAGE.to_string();
            message.append(path.as_str());
            Err(LspError { message })
        },
        Some(root) => {
            let n = text.as_str().as_bytes().len();
            if n >= 0xffff_ffff || !config.exclude_fits() {
                let mut message = TOO_LARGE.to_string();
                message.append(path.as_str());
                return Err(LspError { message });
            }
            Ok(lint_buffer(path, text, root, config))
        },
    }
}

} // verus!
