use sui_clippy::config::SuiClippyConfig;
use sui_clippy::diagnostic::{Diagnostic, Severity, Span};
use sui_clippy::lint_engine::package_source_file;
use sui_clippy::lsp::{buffer_result, NO_PACKAGE, lint_buffer, sc_to_lsp, uri_to_path, LspSeverity, NOT_A_FILE_URI};
use sui_clippy::toml_model::TomlValue;
use sui_clippy::typed::{compiler_diagnostic, probe_settings, CompilerSeverity};
use sui_clippy::workspace::{select_package_roots, sort_paths, workspace_member_names};

#[test]
fn lsp_positions_are_zero_based() {
    let d = Diagnostic::new(
        "todo_comment",
        "msg",
        Severity::Note,
        Span { path: "/p/a.move".to_string(), line_start: 3, line_end: 4, col_start: 1, col_end: 0 },
    );
    let l = sc_to_lsp(d);
    assert_eq!((l.range.start.line, l.range.start.character), (2, 0));
    assert_eq!((l.range.end.line, l.range.end.character), (3, 0));
    assert_eq!(l.severity, LspSeverity::Information);
    assert_eq!(l.code, "todo_comment");
    assert_eq!(l.source, "sui-clippy");
    assert_eq!(l.message, "msg");
}

#[test]
fn lsp_buffer_lints_like_the_cli() {
    let text = "module m::m {\n    // FIXME later\n}\n".to_string();
    let ds = lint_buffer("/p/sources/a.move".to_string(), text, "/p", &SuiClippyConfig::default());
    assert_eq!(ds.len(), 1);
    assert_eq!(ds[0].code, "todo_comment");
    assert_eq!(ds[0].severity, LspSeverity::Warning);
    assert_eq!(ds[0].range.start.line, 1);
    assert_eq!(ds[0].message, "// FIXME marker in comment");
}

#[test]
fn file_uris_to_paths() {
    assert_eq!(uri_to_path("file:///tmp/a.move").unwrap(), "/tmp/a.move");
    assert_eq!(uri_to_path("file:///tmp/with%20space.move").unwrap(), "/tmp/with space.move");
    let e = uri_to_path("not a uri").unwrap_err();
    assert_eq!(e.message, NOT_A_FILE_URI);
}

#[test]
fn relative_path_of_package_file() {
    let f = package_source_file("/p/sources/a.move".to_string(), String::new(), "/p");
    assert_eq!(f.rel_to_package.as_deref(), Some("sources/a.move"));
    let g = package_source_file("/q/a.move".to_string(), String::new(), "/p");
    assert_eq!(g.rel_to_package, None);
}

#[test]
fn workspace_members_from_manifest() {
    let raw = "[workspace]\nmembers = [\"pkg_b\", 7, \"pkg_a\"]\n";
    assert_eq!(workspace_member_names(raw).unwrap(), vec!["pkg_b".to_string(), "pkg_a".to_string()]);
    assert!(workspace_member_names("[package]\nname = \"x\"\n").unwrap().is_empty());
    assert!(workspace_member_names("[workspace\n").is_err());
}

#[test]
fn workspace_roots_sorted_or_fallback() {
    let cands = vec!["/w/pkg_b".to_string(), "/w/missing".to_string(), "/w/pkg_a".to_string()];
    let roots = select_package_roots("/w", cands, &vec![true, false, true]);
    assert_eq!(roots, vec!["/w/pkg_a".to_string(), "/w/pkg_b".to_string()]);
    let none = select_package_roots("/w", vec!["/w/x".to_string()], &vec![false]);
    assert_eq!(none, vec!["/w".to_string()]);
    assert_eq!(select_package_roots("/w", vec![], &vec![]), vec!["/w".to_string()]);
}

#[test]
fn paths_sort_by_component() {
    let s = sort_paths(vec!["/a/b.move".to_string(), "/a/b/c.move".to_string(), "/a//b/a.move".to_string()]);
    assert_eq!(s, vec!["/a//b/a.move".to_string(), "/a/b/c.move".to_string(), "/a/b.move".to_string()]);
}

#[test]
fn compiler_diagnostics_convert() {
    let d = compiler_diagnostic("/p/s.move".to_string(), "unbound module", "sui::x", CompilerSeverity::BlockingError, 2, 2, 7, 3);
    assert_eq!(d.lint_id, "move_compiler");
    assert_eq!(d.message, "unbound module \u{2014} sui::x");
    assert_eq!(d.severity, Severity::Error);
    assert_eq!((d.span.col_start, d.span.col_end), (7, 7));
    let w = compiler_diagnostic("/p/s.move".to_string(), "a", "b", CompilerSeverity::Warning, 1, 1, 1, 4);
    assert_eq!(w.severity, Severity::Warning);
    assert_eq!(w.span.col_end, 4);
}

#[test]
fn probe_settings_from_manifest() {
    let s = |x: &str| TomlValue::Str(x.to_string());
    let doc = TomlValue::Table(vec![
        (
            "addresses".to_string(),
            TomlValue::Table(vec![
                ("p".to_string(), s("0x0")),
                ("std".to_string(), s("_")),
                ("n".to_string(), TomlValue::Other),
            ]),
        ),
        ("package".to_string(), TomlValue::Table(vec![("flavor".to_string(), s("core"))])),
    ]);
    let st = probe_settings(&doc);
    assert_eq!(st.edition, "2024.beta");
    assert_eq!(st.flavor, "core");
    assert_eq!(st.addresses, vec![("p".to_string(), "0x0".to_string())]);
}

fn file_name(p: &str) -> &str {
    p.rsplit('/').next().unwrap_or(p)
}

#[test]
fn workspace_members_expand() {
    let root = "/fixtures/move_workspace";
    let members = workspace_member_names("[workspace]\nmembers = [\"pkg_b\", \"pkg_a\"]\n").unwrap();
    let cands: Vec<String> = members.iter().map(|m| format!("{root}/{m}")).collect();
    let roots = select_package_roots(root, cands, &vec![true, true]);
    assert_eq!(roots.len(), 2);
    assert_eq!(file_name(&roots[0]), "pkg_a");
    assert_eq!(file_name(&roots[1]), "pkg_b");
}

#[test]
fn single_package_fallback() {
    let root = "/fixtures/pkg";
    let members = workspace_member_names("[package]\nname = \"pkg\"\n").unwrap();
    let roots = select_package_roots(root, members, &vec![]);
    assert_eq!(roots.len(), 1);
    assert_eq!(file_name(&roots[0]), "pkg");
}

#[test]
fn move_files_are_picked_and_ordered() {
    assert!(sui_clippy::paths::is_move_file("/p/sources/a.move"));
    assert!(!sui_clippy::paths::is_move_file("move"));
    assert!(!sui_clippy::paths::is_move_file("/p/.move"));
    assert!(!sui_clippy::paths::is_move_file("/p/a.move.bak"));
    let files = vec![
        "/p/sources/z.move".to_string(),
        "/p/sources/notes.txt".to_string(),
        "/p/sources/a/b.move".to_string(),
        "/p/sources/a.move".to_string(),
    ];
    assert_eq!(
        sui_clippy::workspace::move_sources(files),
        vec!["/p/sources/a/b.move".to_string(), "/p/sources/a.move".to_string(), "/p/sources/z.move".to_string()]
    );
}

#[test]
fn buffer_results() {
    let cfg = SuiClippyConfig::default();
    let text = "// TODO x\n".to_string();
    assert!(buffer_result("/p/notes.txt".to_string(), text.clone(), None, &cfg).unwrap().is_empty());
    let e = buffer_result("/p/a.move".to_string(), text.clone(), None, &cfg).unwrap_err();
    assert_eq!(e.message, format!("{NO_PACKAGE}/p/a.move"));
    let ds = buffer_result("/p/sources/a.move".to_string(), text, Some("/p"), &cfg).unwrap();
    assert_eq!(ds.len(), 1);
    assert_eq!(ds[0].code, "todo_comment");
}

#[test]
fn buffer_past_limits_is_refused() {
    let mut cfg = SuiClippyConfig::default();
    cfg.exclude.push("a".repeat(0x4000_0000));
    let e = buffer_result("/p/a.move".to_string(), String::new(), Some("/p"), &cfg).unwrap_err();
    assert_eq!(e.message, format!("{}/p/a.move", sui_clippy::lsp::TOO_LARGE));
    assert!(buffer_result("/p/a.txt".to_string(), String::new(), Some("/p"), &cfg).unwrap().is_empty());
}
