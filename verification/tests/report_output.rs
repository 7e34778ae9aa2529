use sui_clippy::catalog::{all_lint_defs, catalog_text};
use sui_clippy::diagnostic::{Diagnostic, Severity, Span};
use sui_clippy::docgen::{lint_list_html, lints_markdown, md_cell, sort_lint_defs, HTML_HEAD, HTML_MID, HTML_TAIL, MD_HEADER};
use sui_clippy::report::{decimal_string, exit_code, render_diagnostic, reports_sui_move_lint, sui_lint_failed, sui_lint_unavailable, text_report, NO_ISSUES};
use sui_clippy::sarif::{file_uri, sarif_rules, severity_to_sarif_level};

fn diag(id: &str, msg: &str, path: &str, sev: Severity) -> Diagnostic {
    Diagnostic::new(id, msg, sev, Span { path: path.to_string(), line_start: 1, line_end: 1, col_start: 1, col_end: 5 })
}

#[test]
fn sarif_rules_one_per_lint() {
    let d = diag("todo_comment", "example", "/tmp/example.move", Severity::Warning);
    let rules = sarif_rules(&vec![d]);
    assert_eq!(rules.len(), 1);
    assert_eq!(rules[0].id, "todo_comment");
    assert_eq!(rules[0].text, "example");
}

#[test]
fn sarif_rules_sorted_distinct_first_message() {
    let ds = vec![
        diag("zeta", "z1", "/a", Severity::Warning),
        diag("alpha", "a1", "/a", Severity::Warning),
        diag("zeta", "z2", "/a", Severity::Warning),
        diag("mid", "m1", "/a", Severity::Error),
    ];
    let rules = sarif_rules(&ds);
    let ids: Vec<&str> = rules.iter().map(|r| r.id.as_str()).collect();
    assert_eq!(ids, vec!["alpha", "mid", "zeta"]);
    assert_eq!(rules[2].text, "z1");
    assert!(sarif_rules(&vec![]).is_empty());
}

#[test]
fn sarif_levels() {
    assert_eq!(severity_to_sarif_level(Severity::Error), "error");
    assert_eq!(severity_to_sarif_level(Severity::Warning), "warning");
    assert_eq!(severity_to_sarif_level(Severity::Note), "note");
    assert_eq!(severity_to_sarif_level(Severity::Allow), "note");
}

#[test]
fn file_uris() {
    assert_eq!(file_uri("/tmp/example.move"), "file:///tmp/example.move");
    assert_eq!(file_uri("C:\\work\\a.move"), "file:///C:/work/a.move");
}

#[test]
fn text_report_blocks() {
    let d = diag("todo_comment", "TODO marker in comment", "/p/a.move", Severity::Warning).with_note("see docs");
    let r = render_diagnostic(&d);
    assert_eq!(
        r,
        "/p/a.move: warning [todo_comment]: TODO marker in comment\n  --> /p/a.move:1:1\n   = note: see docs\n"
    );
    assert_eq!(text_report(&vec![], false), NO_ISSUES);
    assert_eq!(text_report(&vec![], true), "");
    let e = diag("x", "y", "/q", Severity::Error);
    assert_eq!(text_report(&vec![e.clone()], false), "/q: error [x]: y\n  --> /q:1:1\n");
    assert_eq!(exit_code(&vec![e]), 1);
    assert_eq!(exit_code(&vec![d]), 0);
    assert_eq!(decimal_string(0), "0");
    assert_eq!(decimal_string(4096), "4096");
}

#[test]
fn sui_lint_failure_diagnostics() {
    let d = sui_lint_failed("/p", "/p/Move.toml".to_string(), Some(2));
    assert_eq!(d.lint_id, "sui_move_lint");
    assert_eq!(d.message, "`sui move build --lint` failed for /p (exit Some(2))");
    assert_eq!(d.severity, Severity::Error);
    assert_eq!(d.span.path, "/p/Move.toml");
    assert_eq!((d.span.line_start, d.span.col_end), (1, 1));
    assert_eq!(sui_lint_failed("/p", "m".to_string(), None).message, "`sui move build --lint` failed for /p (exit None)");
    assert_eq!(sui_lint_failed("/p", "m".to_string(), Some(-9)).message, "`sui move build --lint` failed for /p (exit Some(-9))");
    let u = sui_lint_unavailable("/p", "m".to_string(), "no sui");
    assert_eq!(u.message, "failed to run `sui move build --lint` for /p: no sui");
    assert!(reports_sui_move_lint(&vec![u]));
    assert!(!reports_sui_move_lint(&vec![diag("x", "y", "/q", Severity::Error)]));
}

#[test]
fn catalog_lists_lints() {
    let defs = all_lint_defs();
    let s = catalog_text(&defs);
    for id in ["todo_comment", "dynamic_field_access", "missing_move_edition", "git_dep_unpinned", "clock_timestamp", "test_only_in_sources", "bare_abort"] {
        assert!(s.contains(id), "{s}");
    }
    assert!(s.contains("todo_comment\tSuspicious\tWarn\tTrack and remove TODO/FIXME markers before release.\n"), "{s}");
    assert_eq!(s.lines().count(), defs.len());
    assert_eq!(defs.len(), 11);
    assert!(s.contains("dynamic_field_access\tSecurity\tAllow\tDynamic field APIs are easy to get wrong; verify key types, ownership, and access control.\n"), "{s}");
    assert!(s.contains("bare_abort\tSuspicious\tWarn\t"), "{s}");
}

#[test]
fn markdown_cells_and_table() {
    assert_eq!(md_cell("a|b\nc"), "a\\|b c");
    let defs = sort_lint_defs(all_lint_defs());
    let ids: Vec<&str> = defs.iter().map(|d| d.id).collect();
    let mut sorted = ids.clone();
    sorted.sort();
    assert_eq!(ids, sorted);
    assert_eq!(defs.len(), all_lint_defs().len());
    let md = lints_markdown(&defs);
    assert!(md.starts_with(MD_HEADER));
    assert!(md.contains(
        "| [`clock_timestamp`](lints_generated.html#clock_timestamp) | `suspicious` | `warn` | Clock reads can be manipulated by validators in tests; on-chain code should treat timestamps as hints, not strong security boundaries. |\n"
    ), "{md}");
    assert_eq!(md.lines().count(), 8 + defs.len());
}

#[test]
fn html_page() {
    let h = lint_list_html(11, "[]");
    assert_eq!(h, format!("{HTML_HEAD}11{HTML_MID}[]{HTML_TAIL}"));
    assert!(h.contains("<span class=\"badge\">11 rules</span>"));
}

#[test]
fn lint_ids_are_distinct() {
    let defs = all_lint_defs();
    let mut ids: Vec<&str> = defs.iter().map(|d| d.id).collect();
    ids.sort();
    ids.dedup();
    assert_eq!(ids.len(), defs.len());
}

#[test]
fn source_passes_in_order() {
    let ids: Vec<&str> = sui_clippy::lint_engine::all_source_lint_defs().iter().map(|d| d.id).collect();
    assert_eq!(
        ids,
        vec![
            "todo_comment",
            "tx_context_sender",
            "empty_public_entry",
            "public_fun_transfer",
            "bare_abort",
            "clock_timestamp",
            "dynamic_field_access",
            "test_only_in_sources",
        ]
    );
}

#[test]
fn markdown_index_matches_the_book() {
    let md = lints_markdown(&sort_lint_defs(all_lint_defs()));
    let book = "| [`bare_abort`](lints_generated.html#bare_abort) | `suspicious` | `warn` | `abort` with a magic numeric code is easy to misuse; prefer named constants or structured errors. |
| [`clock_timestamp`](lints_generated.html#clock_timestamp) | `suspicious` | `warn` | Clock reads can be manipulated by validators in tests; on-chain code should treat timestamps as hints, not strong security boundaries. |
| [`dynamic_field_access`](lints_generated.html#dynamic_field_access) | `security` | `allow` | Dynamic field APIs are easy to get wrong; verify key types, ownership, and access control. |
| [`empty_public_entry`](lints_generated.html#empty_public_entry) | `correctness` | `deny` | A public entry function with an empty body is almost certainly a mistake or unsafe stub. |
";
    assert!(md.contains(book), "{md}");
}

#[test]
fn sarif_run_assembly() {
    let d = diag("todo_comment", "example", "/tmp/example.move", Severity::Warning);
    let run = sui_clippy::sarif::sarif_run(
        "sui-clippy",
        "0.4.0",
        "https://example.invalid",
        &vec![d],
        &vec!["file:///tmp/example.move".to_string()],
    );
    assert_eq!(run.driver_name, "sui-clippy");
    assert_eq!(run.driver_version, "0.4.0");
    assert_eq!(run.rules.len(), 1);
    assert_eq!(run.rules[0].id, "todo_comment");
    assert_eq!(run.rules[0].text, "example");
    assert_eq!(run.extensions.len(), 1);
    assert_eq!(run.extensions[0].name, "sui-clippy-lints");
    assert_eq!(run.results.len(), 1);
    let r = &run.results[0];
    assert_eq!((r.rule_id.as_str(), r.level, r.uri.as_str()), ("todo_comment", "warning", "file:///tmp/example.move"));
    assert_eq!((r.start_line, r.start_column, r.end_line, r.end_column), (1, 1, 1, 5));
}
