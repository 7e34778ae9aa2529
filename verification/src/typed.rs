//! Typed, compiler-backed analysis. This build has no Move compiler: the probe reports
//! nothing. The settings the probe compiles with and the conversion of compiler
//! diagnostics are the library's own.
use vstd::prelude::*;

use crate::diagnostic::{diag_spec, span_spec, Diagnostic, Severity, Span};
use crate::toml_model::{
    entries_get, get_str, get_table, lemma_entries_len, lemma_entries_view_index, toml_entries_view, toml_get,
    toml_view, value_get, TomlSpec, TomlValue,
};
use crate::seq_util::{filter_some, lemma_filter_some_take};

verus! {

/// Why the compiler probe failed.
#[derive(Debug, Clone)]
pub struct ProbeError {
    pub message: String,
}

/// Whether this build carries the Move compiler.
pub fn move_compiler_feature_enabled() -> (r: bool)
    ensures
        !r,
{
    false
}

/// Runs the Move compiler on the package's `sources/`. Without the compiler in this
/// build it reports nothing.
pub fn run_compiler_probe(_package_root: &str) -> (r: Result<Vec<Diagnostic>, ProbeError>)
    ensures
        r matches Ok(v) && v@.len() == 0,
{
    Ok(Vec::new())
}

/// Severities the Move compiler reports.
#[derive(Clone, Copy, Debug, PartialEq, Eq, Structural)]
pub enum CompilerSeverity {
    BlockingError,
    NonblockingError,
    Bug,
    Warning,
    Note,
}

/// The severity a compiler diagnostic is reported with.
pub open spec fn compiler_severity(s: CompilerSeverity) -> Severity {
    match s {
        CompilerSeverity::BlockingError | CompilerSeverity::NonblockingError | CompilerSeverity::Bug => Severity::Error,
        CompilerSeverity::Warning => Severity::Warning,
        CompilerSeverity::Note => Severity::Note,
    }
}

/// The lint id compiler diagnostics are reported under.
pub const MOVE_COMPILER_ID: &'static str = "move_compiler";

/// A compiler diagnostic in the linter's form: lint `move_compiler`, message
/// `info — primary`, and a span whose end column is never before its start column.
pub fn compiler_diagnostic(
    path: String,
    info_message: &str,
    primary_message: &str,
    severity: CompilerSeverity,
    line_start: u32,
    line_end: u32,
    col_start: u32,
    col_end: u32,
) -> (d: Diagnostic)
    ensures
        d@ == diag_spec(
            "move_compiler"@,
            info_message@ + " — "@ + primary_message@,
            compiler_severity(severity),
            span_spec(path@, line_start, line_end, col_start, if col_end < col_start { col_start } else { col_end }),
        ),
{
    let sev = match severity {
        CompilerSeverity::BlockingError => Severity::Error,
        CompilerSeverity::NonblockingError => Severity::Error,
        CompilerSeverity::Bug => Severity::Error,
        CompilerSeverity::Warning => Severity::Warning,
        CompilerSeverity::Note => Severity::Note,
    };
    let mut msg = info_message.to_string();
    msg.append(" — ");
    msg.append(primary_message);
    let end = if col_end < col_start { col_start } else { col_end };
    let span = Span { path, line_start, line_end, col_start, col_end: end };
    let d = Diagnostic::new(MOVE_COMPILER_ID, msg.as_str(), sev, span);
    proof {
        assert(MOVE_COMPILER_ID@ == "move_compiler"@);
    }
    d
}

/// What the probe compiles a package with.
#[derive(Debug, Clone)]
pub struct ProbeSettings {
    /// `[package].edition`, `2024.beta` when absent.
    pub edition: String,
    /// `[package].flavor`, `sui` when absent.
    pub flavor: String,
    /// The `[addresses]` entries with a string value other than `_`, in table order.
    pub addresses: Vec<(String, String)>,
}

/// The edition the probe compiles with.
pub open spec fn probe_edition(doc: TomlSpec) -> Seq<char> {
    match toml_get(doc, "package"@) {
        Some(p) => match get_str(p, "edition"@) {
            Some(e) => e,
            None => "2024.beta"@,
        },
        None => "2024.beta"@,
    }
}

/// The flavor the probe compiles with.
pub open spec fn probe_flavor(doc: TomlSpec) -> Seq<char> {
    match toml_get(doc, "package"@) {
        Some(p) => match get_str(p, "flavor"@) {
            Some(f) => f,
            None => "sui"@,
        },
        None => "sui"@,
    }
}

/// A named address the probe passes on: a string value other than `_`.
pub open spec fn named_address(e: (Seq<char>, TomlSpec)) -> Option<(Seq<char>, Seq<char>)> {
    match e.1 {
        TomlSpec::Str(s) => if s == "_"@ {
            None
        } else {
            Some((e.0, s))
        },
        _ => None,
    }
}

/// The named addresses of the manifest, in table order.
pub open spec fn probe_addresses(doc: TomlSpec) -> Seq<(Seq<char>, Seq<char>)> {
    match get_table(doc, "addresses"@) {
        Some(es) => filter_some(es.map_values(|e: (Seq<char>, TomlSpec)| named_address(e))),
        None => seq![],
    }
}

pub open spec fn pairs_view(v: Seq<(String, String)>) -> Seq<(Seq<char>, Seq<char>)> {
    v.map_values(|p: (String, String)| (p.0@, p.1@))
}

/// A string entry of `v` (`get(key)` then `as_str`), or `default`.
fn str_or(v: Option<&TomlValue>, key: &str, default: &str) -> (r: String)
    ensures
        r@ == match opt_ref_view(v) {
            Some(x) => match get_str(x, key@) {
                Some(s) => s,
                None => default@,
            },
            None => default@,
        },
{
    match v {
        Some(x) => match value_get(x, key) {
            Some(TomlValue::Str(s)) => s.clone(),
            _ => default.to_string(),
        },
        None => default.to_string(),
    }
}

pub open spec fn opt_ref_view(v: Option<&TomlValue>) -> Option<TomlSpec> {
    match v {
        Some(x) => Some(toml_view(*x)),
        None => None,
    }
}

/// The settings the probe compiles a package with, read from its parsed manifest.
pub fn probe_settings(doc: &TomlValue) -> (r: ProbeSettings)
    ensures
        r.edition@ == probe_edition(toml_view(*doc)),
        r.flavor@ == probe_flavor(toml_view(*doc)),
        pairs_view(r.addresses@) == probe_addresses(toml_view(*doc)),
{
    let package = value_get(doc, "package");
    let edition = str_or(package, "edition", "2024.beta");
    let flavor = str_or(package, "flavor", "sui");
    let mut addresses: Vec<(String, String)> = Vec::new();
    match value_get(doc, "addresses") {
        Some(TomlValue::Table(entries)) => {
            let ghost es = toml_entries_view(entries@);
            let ghost named = es.map_values(|e: (Seq<char>, TomlSpec)| named_address(e));
            proof {
                lemma_entries_len(entries@);
            }
            let mut i: usize = 0;
            while i < entries.len()
                invariant
                    es == toml_entries_view(entries@),
                    es.len() == entries@.len(),
                    named == es.map_values(|e: (Seq<char>, TomlSpec)| named_address(e)),
                    i <= entries@.len(),
                    pairs_view(addresses@) == filter_some(named.take(i as int)),
                decreases entries@.len() - i,
            {
                proof {
                    lemma_entries_view_index(entries@, i as int);
                    lemma_filter_some_take(named, i as int);
                }
                match &entries[i].1 {
                    TomlValue::Str(s) => {
                        if !crate::text::str_eq(s.as_str(), "_") {
                            let ghost before = pairs_view(addresses@);
                            addresses.push((entries[i].0.clone(), s.clone()));
                            proof {
                                assert(pairs_view(addresses@) =~= before + seq![(entries@[i as int].0@, s@)]);
                            }
                        }
                    },
                    _ => {},
                }
                i = i + 1;
            }
            proof {
                assert(named.take(entries@.len() as int) =~= named);
            }
        },
        _ => {
            proof {
                assert(pairs_view(addresses@) =~= probe_addresses(toml_view(*doc)));
            }
        },
    }
    ProbeSettings { edition, flavor, addresses }
}

} // verus!
