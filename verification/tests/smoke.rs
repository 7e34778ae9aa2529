use sui_clippy::config::SuiClippyConfig;
use sui_clippy::diagnostic::Diagnostic;
use sui_clippy::lint_engine::{run_source_lints, LintRunOptions};
use sui_clippy::lint_meta::LintLevel;
use sui_clippy::source_file::SourceFile;

const ROOT: &str = "/work/pkg";
const PATH: &str = "/work/pkg/sources/demo.move";

const DEMO: &str = "module demo::demo {
    use sui::clock::{Self, Clock};
    use sui::tx_context::{Self, TxContext};

    // TODO: remove before release
    public struct Thing has key, store { id: UID }

    public fun give(t: Thing, ctx: &mut TxContext) {
        let who = tx_context::sender(ctx);
        transfer::public_transfer(t, who);
    }

    public fun now(c: &Clock): u64 {
        clock::timestamp_ms(c)
    }

    #[test_only]
    public fun helper() {}

    public fun check(ok: bool) {
        if (!ok) abort 42;
    }

    public fun attach(parent: &mut Thing, v: u64) {
        sui::dynamic_field::add(&mut parent.id, 7u64, v);
    }
}
";

fn lint_demo(opts: &LintRunOptions) -> Vec<Diagnostic> {
    let sf = SourceFile::new(PATH.to_string(), DEMO.to_string());
    run_source_lints(&sf, ROOT, &SuiClippyConfig::default(), opts)
}

#[test]
fn todo_comment_fires() {
    let diags = lint_demo(&LintRunOptions::default());
    assert!(diags.iter().any(|d| d.lint_id == "todo_comment"), "{diags:?}");
}

#[test]
fn tx_context_sender_fires() {
    let diags = lint_demo(&LintRunOptions::default());
    assert!(diags.iter().any(|d| d.lint_id == "tx_context_sender"), "{diags:?}");
}

#[test]
fn public_fun_transfer_respects_allow_by_default() {
    let diags = lint_demo(&LintRunOptions::default());
    assert!(
        !diags.iter().any(|d| d.lint_id == "public_fun_transfer"),
        "security lint should be allow by default: {diags:?}"
    );
}

#[test]
fn public_fun_transfer_when_included() {
    let mut opts = LintRunOptions::default();
    opts.include_allowed = true;
    let diags = lint_demo(&opts);
    assert!(diags.iter().any(|d| d.lint_id == "public_fun_transfer"), "{diags:?}");
}

#[test]
fn bare_abort_fires() {
    let diags = lint_demo(&LintRunOptions::default());
    assert!(diags.iter().any(|d| d.lint_id == "bare_abort"), "{diags:?}");
}

#[test]
fn dynamic_field_respects_allow_by_default() {
    let diags = lint_demo(&LintRunOptions::default());
    assert!(!diags.iter().any(|d| d.lint_id == "dynamic_field_access"), "{diags:?}");
}

#[test]
fn dynamic_field_cli_warn() {
    let mut opts = LintRunOptions::default();
    opts.cli_overrides.insert("dynamic_field_access".into(), LintLevel::Warn);
    let diags = lint_demo(&opts);
    assert!(diags.iter().any(|d| d.lint_id == "dynamic_field_access"), "{diags:?}");
}

#[test]
fn bare_abort_points_at_the_code() {
    let diags = lint_demo(&LintRunOptions::default());
    let d = diags.iter().find(|d| d.lint_id == "bare_abort").expect("abort");
    assert_eq!(d.span.line_start, 21);
    assert_eq!(d.severity, sui_clippy::diagnostic::Severity::Warning);
    let text = "const E_BAD: u64 = 1;\nfun f() { abort E_BAD }\n// abort 3\n";
    let sf = SourceFile::new(PATH.to_string(), text.to_string());
    let diags = run_source_lints(&sf, ROOT, &SuiClippyConfig::default(), &LintRunOptions::default());
    assert!(!diags.iter().any(|d| d.lint_id == "bare_abort"), "{diags:?}");
}

#[test]
fn include_allowed_only_adds_allowed_diagnostics() {
    let without = lint_demo(&LintRunOptions::default());
    let mut opts = LintRunOptions::default();
    opts.include_allowed = true;
    let with = lint_demo(&opts);
    let kept: Vec<String> = with
        .iter()
        .filter(|d| d.severity != sui_clippy::diagnostic::Severity::Allow)
        .map(|d| format!("{d:?}"))
        .collect();
    let plain: Vec<String> = without.iter().map(|d| format!("{d:?}")).collect();
    assert_eq!(kept, plain);
    assert!(with.len() > without.len());
    assert!(without.iter().all(|d| d.severity != sui_clippy::diagnostic::Severity::Allow));
}

#[test]
fn clock_timestamp_fires() {
    let diags = lint_demo(&LintRunOptions::default());
    assert!(diags.iter().any(|d| d.lint_id == "clock_timestamp"), "{diags:?}");
}

#[test]
fn test_only_in_sources_when_enabled() {
    let mut opts = LintRunOptions::default();
    opts.cli_overrides.insert("test_only_in_sources".into(), LintLevel::Warn);
    let diags = lint_demo(&opts);
    assert!(diags.iter().any(|d| d.lint_id == "test_only_in_sources"), "{diags:?}");
}

#[test]
fn todo_comment_message_and_columns() {
    let diags = lint_demo(&LintRunOptions::default());
    let d = diags.iter().find(|d| d.lint_id == "todo_comment").expect("todo");
    assert_eq!(d.message, "// TODO marker in comment");
    assert_eq!(d.span.line_start, 5);
    assert_eq!(d.span.col_start, 5);
    assert_eq!(d.span.col_end, 12);
}

#[test]
fn tx_context_sender_carries_a_note() {
    let diags = lint_demo(&LintRunOptions::default());
    let d = diags.iter().find(|d| d.lint_id == "tx_context_sender").expect("sender");
    assert_eq!(d.span.line_start, 9);
    assert!(d.note.is_some());
}

#[test]
fn public_fun_transfer_points_at_the_transfer_line() {
    let mut opts = LintRunOptions::default();
    opts.cli_overrides.insert("public_fun_transfer".into(), LintLevel::Deny);
    let diags = lint_demo(&opts);
    let d = diags.iter().find(|d| d.lint_id == "public_fun_transfer").expect("transfer");
    assert_eq!(d.span.line_start, 10);
    assert_eq!(d.severity, sui_clippy::diagnostic::Severity::Error);
}

#[test]
fn test_only_is_quiet_under_tests_tree() {
    let mut opts = LintRunOptions::default();
    opts.cli_overrides.insert("test_only_in_sources".into(), LintLevel::Warn);
    let sf = SourceFile::with_rel(PATH.to_string(), DEMO.to_string(), "tests/demo.move");
    let diags = run_source_lints(&sf, ROOT, &SuiClippyConfig::default(), &opts);
    assert!(!diags.iter().any(|d| d.lint_id == "test_only_in_sources"), "{diags:?}");
}

#[test]
fn empty_public_entry_fires() {
    let text = "module m::m {\n    public entry fun noop(x: u64): u64 {\n    }\n}\n";
    let sf = SourceFile::new(PATH.to_string(), text.to_string());
    let diags = run_source_lints(&sf, ROOT, &SuiClippyConfig::default(), &LintRunOptions::default());
    let d = diags.iter().find(|d| d.lint_id == "empty_public_entry").expect("empty entry");
    assert_eq!(d.span.line_start, 2);
}

#[test]
fn commented_lines_are_skipped() {
    let text = "// let s = tx_context::sender(ctx);\n// clock::timestamp_ms(c)\n";
    let sf = SourceFile::new(PATH.to_string(), text.to_string());
    let diags = run_source_lints(&sf, ROOT, &SuiClippyConfig::default(), &LintRunOptions::default());
    assert!(!diags.iter().any(|d| d.lint_id == "tx_context_sender" || d.lint_id == "clock_timestamp"), "{diags:?}");
}

#[test]
fn excluded_file_reports_nothing() {
    let cfg = SuiClippyConfig::from_toml_str("exclude = [\"sources/**\"]\n").unwrap();
    let sf = SourceFile::new(PATH.to_string(), DEMO.to_string());
    let diags = run_source_lints(&sf, ROOT, &cfg, &LintRunOptions::default());
    assert!(diags.is_empty(), "{diags:?}");
}

#[test]
fn config_level_applies_and_cli_wins() {
    let cfg = SuiClippyConfig::from_toml_str("[lint]\ntodo_comment = \"deny\"\n").unwrap();
    let sf = SourceFile::new(PATH.to_string(), DEMO.to_string());
    let diags = run_source_lints(&sf, ROOT, &cfg, &LintRunOptions::default());
    let d = diags.iter().find(|d| d.lint_id == "todo_comment").expect("todo");
    assert_eq!(d.severity, sui_clippy::diagnostic::Severity::Error);
    let mut opts = LintRunOptions::default();
    opts.cli_overrides.insert("todo_comment".into(), LintLevel::Allow);
    let diags = run_source_lints(&sf, ROOT, &cfg, &opts);
    assert!(!diags.iter().any(|d| d.lint_id == "todo_comment"), "{diags:?}");
}

#[test]
fn todo_marker_is_upper_cased() {
    let sf = SourceFile::new(PATH.to_string(), "let x = 1; // todo: later\n".to_string());
    let diags = run_source_lints(&sf, ROOT, &SuiClippyConfig::default(), &LintRunOptions::default());
    assert_eq!(diags.len(), 1);
    assert_eq!(diags[0].message, "// TODO marker in comment");
    assert_eq!(diags[0].span.col_start, 12);
}

#[test]
fn per_match_diagnostics() {
    let path = PATH.to_string();
    let d = sui_clippy::lints::clock_timestamp::match_diagnostic(&path, 4, Some((2, 9))).unwrap();
    assert_eq!((d.span.line_start, d.span.col_start, d.span.col_end), (4, 3, 10));
    assert!(sui_clippy::lints::clock_timestamp::match_diagnostic(&path, 4, None).is_none());
    let d = sui_clippy::lints::bare_abort::match_diagnostic(&path, 2, Some((0, 8))).unwrap();
    assert_eq!(d.lint_id, "bare_abort");
    let d = sui_clippy::lints::dynamic_field_access::match_diagnostic(&path, 2, Some((5, 20))).unwrap();
    assert_eq!((d.lint_id.as_str(), d.span.col_start), ("dynamic_field_access", 6));
    let d = sui_clippy::lints::tx_context_sender::match_diagnostic(&path, 7, Some((1, 2))).unwrap();
    assert_eq!(d.note.as_deref(), Some(sui_clippy::lints::tx_context_sender::SUI_NOTE));
    let d = sui_clippy::lints::todo_comment::match_diagnostic(&path, 1, "x // fixme", Some((2, 10))).unwrap();
    assert_eq!(d.message, "// FIXME marker in comment");
}

#[test]
fn whole_text_match_diagnostics() {
    let path = PATH.to_string();
    let text = "ab\ncd {\n}\n";
    let d = sui_clippy::lints::empty_public_entry::match_diagnostic(&path, text, 3, 9);
    assert_eq!((d.span.line_start, d.span.col_start, d.span.line_end, d.span.col_end), (2, 1, 3, 1));
    let sf = SourceFile::new(PATH.to_string(), "public fun f() {\n  // transfer::transfer(x, y);\n  transfer::transfer(x, y);\n}\n".to_string());
    let lines = sf.lines();
    assert!(sui_clippy::lints::public_fun_transfer::transfer_diagnostic(&sf, &lines, 0, 20, 38).is_none());
    let d = sui_clippy::lints::public_fun_transfer::transfer_diagnostic(&sf, &lines, 0, 50, 68).unwrap();
    assert_eq!((d.span.line_start, d.span.col_start), (3, 3));
}
