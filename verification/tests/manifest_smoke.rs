use sui_clippy::config::SuiClippyConfig;
use sui_clippy::diagnostic::Severity;
use sui_clippy::lint_engine::LintRunOptions;
use sui_clippy::lint_meta::LintLevel;
use sui_clippy::manifest::{first_line_containing, line_of_table_header, run_manifest_lints};

const MOVE_TOML: &str = "/work/bad_manifest/Move.toml";

const BAD_MANIFEST: &str = "[package]
name = \"bad_manifest\"
version = \"0.0.1\"

[dependencies]
Sui = { git = \"https://github.com/MystenLabs/sui.git\", subdir = \"crates/sui-framework/packages/sui-framework\" }
Wild = { git = \"https://example.com/wild.git\", rev = \"*\" }
Pinned = { git = \"https://example.com/pinned.git\", rev = \"abc123\" }

[addresses]
bad_manifest = \"0x0\"
";

#[test]
fn manifest_flags_missing_edition_and_deps() {
    let diags = run_manifest_lints(MOVE_TOML, BAD_MANIFEST, &SuiClippyConfig::default(), &LintRunOptions::default())
        .unwrap();
    assert!(diags.iter().any(|d| d.lint_id == "missing_move_edition"), "{diags:?}");
    assert!(diags.iter().any(|d| d.lint_id == "git_dep_unpinned"), "{diags:?}");
    let wild = diags.iter().find(|d| d.lint_id == "wildcard_git_ref").expect("wildcard");
    assert_eq!(wild.severity, Severity::Error);
}

#[test]
fn manifest_allow_missing_edition() {
    let mut cfg = SuiClippyConfig::default();
    cfg.lint_levels.insert("missing_move_edition".into(), LintLevel::Allow);
    let diags = run_manifest_lints(MOVE_TOML, BAD_MANIFEST, &cfg, &LintRunOptions::default()).unwrap();
    assert!(!diags.iter().any(|d| d.lint_id == "missing_move_edition"), "{diags:?}");
}

#[test]
fn manifest_diagnostics_point_at_their_lines() {
    let diags = run_manifest_lints(MOVE_TOML, BAD_MANIFEST, &SuiClippyConfig::default(), &LintRunOptions::default())
        .unwrap();
    let edition = diags.iter().find(|d| d.lint_id == "missing_move_edition").unwrap();
    assert_eq!(edition.span.line_start, 1);
    assert_eq!(edition.message, "[package] is missing `edition`");
    let unpinned: Vec<_> = diags.iter().filter(|d| d.lint_id == "git_dep_unpinned").collect();
    assert_eq!(unpinned.len(), 1);
    assert_eq!(unpinned[0].span.line_start, 6);
    assert_eq!(unpinned[0].message, "unpinned git dependency `Sui` in [dependencies]");
    let wild = diags.iter().find(|d| d.lint_id == "wildcard_git_ref").unwrap();
    assert_eq!(wild.span.line_start, 7);
    assert_eq!(wild.message, "git dependency `Wild` in [dependencies] uses a wildcard ref");
    assert_eq!(wild.span.path, MOVE_TOML);
}

#[test]
fn manifest_not_toml_is_an_error() {
    let r = run_manifest_lints(MOVE_TOML, "[package\nname = ", &SuiClippyConfig::default(), &LintRunOptions::default());
    assert!(r.is_err());
}

#[test]
fn manifest_with_edition_and_local_dep_is_clean() {
    let raw = "[package]\nname = \"ok\"\nedition = \"2024.beta\"\n\n[dependencies]\nLocal = { local = \"../x\", git = \"https://e.invalid/x.git\" }\n";
    let diags = run_manifest_lints(MOVE_TOML, raw, &SuiClippyConfig::default(), &LintRunOptions::default()).unwrap();
    assert!(diags.is_empty(), "{diags:?}");
}

#[test]
fn line_helpers() {
    assert_eq!(line_of_table_header(BAD_MANIFEST, "dependencies"), Some(5));
    assert_eq!(line_of_table_header(BAD_MANIFEST, "dev-dependencies"), None);
    assert_eq!(first_line_containing(BAD_MANIFEST, "Wild ="), Some(7));
    assert_eq!(first_line_containing(BAD_MANIFEST, "nothing here"), None);
}
