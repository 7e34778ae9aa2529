use sui_clippy::cli::{merge_cli_lint_overrides, plan, CliArgs, OutputFormat, PackageSearch, RunError, RunOutcome, RunParams};
use sui_clippy::diagnostic::{Diagnostic, Severity, Span};
use sui_clippy::lint_meta::LintLevel;

fn args() -> CliArgs {
    CliArgs {
        path: ".".to_string(),
        format: OutputFormat::Text,
        json: false,
        with_sui_lint: false,
        include_allowed: false,
        list_lints: false,
        skip_manifest: false,
        fix_manifest: false,
        fix: false,
        fix_sources: false,
        workspace: false,
        typed: false,
        warn_lint: vec![],
        allow_lint: vec![],
        deny_lint: vec![],
    }
}

fn diag(path: &str, line: u32, severity: Severity) -> Diagnostic {
    Diagnostic::new(
        "todo_comment",
        "m",
        severity,
        Span { path: path.to_string(), line_start: line, line_end: line, col_start: 1, col_end: 2 },
    )
}

#[test]
fn json_flag_wins_over_format() {
    let mut a = args();
    assert_eq!(a.output_format(), OutputFormat::Text);
    a.format = OutputFormat::Sarif;
    assert_eq!(a.output_format(), OutputFormat::Sarif);
    a.json = true;
    assert_eq!(a.output_format(), OutputFormat::Json);
    assert_eq!(OutputFormat::default(), OutputFormat::Text);
}

#[test]
fn overrides_deny_beats_warn_beats_allow() {
    let allow = vec!["a".to_string(), "b".to_string(), "c".to_string()];
    let warn = vec!["b".to_string(), "c".to_string()];
    let deny = vec!["c".to_string(), "d".to_string()];
    let m = merge_cli_lint_overrides(&allow, &warn, &deny);
    assert_eq!(m.len(), 4);
    assert_eq!(m.get("a"), Some(&LintLevel::Allow));
    assert_eq!(m.get("b"), Some(&LintLevel::Warn));
    assert_eq!(m.get("c"), Some(&LintLevel::Deny));
    assert_eq!(m.get("d"), Some(&LintLevel::Deny));
    assert_eq!(m.get("e"), None);
}

#[test]
fn run_params_from_args() {
    let mut a = args();
    a.fix = true;
    a.json = true;
    a.workspace = true;
    a.warn_lint = vec!["x".to_string()];
    let p = RunParams::from_args(a);
    assert!(p.fix_manifest);
    assert_eq!(p.format, OutputFormat::Json);
    assert!(p.workspace);
    assert!(!p.typed);
    assert_eq!(p.path, ".");
    assert_eq!(p.cli_overrides.get("x"), Some(&LintLevel::Warn));
}

#[test]
fn outcome_sorts_and_sets_exit_code() {
    let ds = vec![
        diag("/p/b.move", 3, Severity::Warning),
        diag("/p/a.move", 9, Severity::Warning),
        diag("/p/a.move", 2, Severity::Warning),
    ];
    let out = RunOutcome::from_diagnostics(ds);
    assert_eq!(out.exit_code, 0);
    let order: Vec<(String, u32)> = out.diagnostics.iter().map(|d| (d.span.path.clone(), d.span.line_start)).collect();
    assert_eq!(
        order,
        vec![("/p/a.move".to_string(), 2), ("/p/a.move".to_string(), 9), ("/p/b.move".to_string(), 3)]
    );
    let out = RunOutcome::from_diagnostics(vec![diag("/p/a.move", 1, Severity::Note), diag("/p/a.move", 1, Severity::Error)]);
    assert_eq!(out.exit_code, 1);
    assert_eq!(RunOutcome::default().exit_code, 0);
}

#[test]
fn sort_is_stable_and_orders_by_components() {
    let mut a = diag("/p/x.move", 1, Severity::Warning);
    a.message = "first".to_string();
    let mut b = diag("/p/x.move", 1, Severity::Warning);
    b.message = "second".to_string();
    let c = diag("/p/a/z.move", 1, Severity::Warning);
    let d = diag("/p/a.move", 1, Severity::Warning);
    let out = sui_clippy::report::sort_diagnostics(vec![a, b, c, d]);
    let paths: Vec<&str> = out.iter().map(|d| d.span.path.as_str()).collect();
    // `Path` order: the component `a` before `a.move` before `x.move`.
    assert_eq!(paths, vec!["/p/a/z.move", "/p/a.move", "/p/x.move", "/p/x.move"]);
    assert_eq!(out[2].message, "first");
    assert_eq!(out[3].message, "second");
}

#[test]
fn run_plans() {
    let mut a = args();
    a.fix = true;
    a.fix_sources = true;
    let p = RunParams::from_args(a);
    let pl = plan(&p, false, false).unwrap();
    assert!(pl.note_fix_sources && pl.fix_manifest && pl.lint_manifest);
    assert_eq!(pl.search, PackageSearch::AtOrAboveDir);
    assert!(!pl.scan_whole_package && !pl.run_probe && !pl.probe_unavailable && pl.sui_output_to_stdout);
    assert_eq!(plan(&p, true, false).unwrap().search, PackageSearch::AboveFile);

    let mut b = args();
    b.workspace = true;
    b.skip_manifest = true;
    b.fix_manifest = true;
    b.typed = true;
    b.json = true;
    let q = RunParams::from_args(b);
    assert_eq!(plan(&q, true, false), Err(RunError::WorkspaceNeedsDirectory));
    let ql = plan(&q, false, false).unwrap();
    assert_eq!(ql.search, PackageSearch::Workspace);
    assert!(!ql.fix_manifest && !ql.lint_manifest && ql.scan_whole_package);
    assert!(ql.probe_unavailable && !ql.run_probe && !ql.note_fix_sources && !ql.sui_output_to_stdout);
    assert!(plan(&q, false, true).unwrap().run_probe);
}
