use vstd::prelude::*;
use vstd::string::StringSliceAdditionalSpecFns;

use crate::diagnostic::{diag_spec, diags_view, span_spec, Diagnostic, DiagnosticView, Severity, Span};
use crate::manifest::{first_line_with, has_key, line_of_table_header, MISSING_MOVE_EDITION_ID};
use crate::toml_model::{entries_lookup, get_table, toml_entries_view, toml_view, value_get, TomlSpec, TomlValue};

verus! {

pub const MESSAGE: &'static str = "[package] is missing `edition`";

/// A `[package]` table without `edition` is reported at its header line (line 1 when
/// no line holds the header); no `[package]` table, nothing to report.
pub open spec fn missing_edition_diags(path: Seq<char>, text: Seq<char>, root: TomlSpec) -> Seq<DiagnosticView> {
    match get_table(root, "package"@) {
        None => seq![],
        Some(pkg) => if has_key(pkg, "edition"@) {
            seq![]
        } else {
            let line = match first_line_with(text, "["@ + "package"@ + "]"@) {
                Some(n) => n,
                None => 1,
            };
            seq![
                diag_spec(
                    MISSING_MOVE_EDITION_ID@,
                    MESSAGE@,
                    Severity::Warning,
                    span_spec(path, line as u32, line as u32, 1, 1),
                ),
            ]
        },
    }
}

/// `[package]` without an `edition` key.
pub fn check(move_toml_path: &str, raw: &str, value: &TomlValue) -> (r: Vec<Diagnostic>)
    requires
        raw.spec_bytes().len() < u32::MAX,
    ensures
        diags_view(r@) == missing_edition_diags(move_toml_path@, raw@, toml_view(*value)),
{
    let pkg = match value_get(value, "package") {
        Some(TomlValue::Table(t)) => t,
        _ => {
            proof {
                assert(diags_view(Seq::<Diagnostic>::empty()) =~= Seq::<DiagnosticView>::empty());
            }
            return Vec::new();
        },
    };
    if entries_lookup(pkg, "edition").is_some() {
        proof {
            assert(diags_view(Seq::<Diagnostic>::empty()) =~= Seq::<DiagnosticView>::empty());
        }
        return Vec::new();
    }
    let line = match line_of_table_header(raw, "package") {
        Some(n) => n,
        None => 1,
    };
    let d = Diagnostic::new(
        MISSING_MOVE_EDITION_ID,
        MESSAGE,
        Severity::Warning,
        Span {
            path: move_toml_path.to_string(),
            line_start: line,
            line_end: line,
            col_start: 1,
            col_end: 1,
        },
    );
    let r = vec![d];
    proof {
        assert(diags_view(r@) =~= missing_edition_diags(move_toml_path@, raw@, toml_view(*value)));
    }
    r
}

} // verus!
