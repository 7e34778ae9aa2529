use sui_clippy::config::{parse_level, ConfigError, SuiClippyConfig};
use sui_clippy::lint_meta::{LintCategory, LintLevel};
use sui_clippy::source_file::{is_line_comment_line, SourceFile};
use sui_clippy::text::{byte_index_to_line_col, matching_brace_end};

#[test]
fn levels_parse_case_insensitively() {
    assert_eq!(parse_level("allow"), Some(LintLevel::Allow));
    assert_eq!(parse_level("WARN"), Some(LintLevel::Warn));
    assert_eq!(parse_level("Warning"), Some(LintLevel::Warn));
    assert_eq!(parse_level("deny"), Some(LintLevel::Deny));
    assert_eq!(parse_level("forbid"), Some(LintLevel::Deny));
    assert_eq!(parse_level("loud"), None);
}

#[test]
fn category_defaults() {
    assert_eq!(LintCategory::Correctness.default_level(), LintLevel::Deny);
    assert_eq!(LintCategory::Suspicious.default_level(), LintLevel::Warn);
    assert_eq!(LintCategory::Style.default_level(), LintLevel::Warn);
    assert_eq!(LintCategory::Perf.default_level(), LintLevel::Warn);
    assert_eq!(LintCategory::Nursery.default_level(), LintLevel::Allow);
    assert_eq!(LintCategory::Security.default_level(), LintLevel::Allow);
    assert_eq!(LintCategory::Sui.default_level(), LintLevel::Allow);
}

#[test]
fn config_file_reads_levels_and_excludes() {
    let cfg = SuiClippyConfig::from_toml_str("exclude = [\"sources/gen/**\"]\n[lint]\ntodo_comment = \"allow\"\nclock_timestamp = \"Deny\"\n").unwrap();
    assert_eq!(cfg.level_for("todo_comment", LintLevel::Warn), LintLevel::Allow);
    assert_eq!(cfg.level_for("clock_timestamp", LintLevel::Warn), LintLevel::Deny);
    assert_eq!(cfg.level_for("other", LintLevel::Warn), LintLevel::Warn);
    assert!(cfg.is_excluded("sources/gen/a.move"));
    assert!(!cfg.is_excluded("sources/a.move"));
    let empty = SuiClippyConfig::from_toml_str("").unwrap();
    assert!(!empty.is_excluded("sources/a.move"));
}

#[test]
fn config_file_errors() {
    assert!(matches!(SuiClippyConfig::from_toml_str("exclude = ["), Err(ConfigError::Parse(_))));
    assert!(matches!(SuiClippyConfig::from_toml_str("exclude = \"x\"\n"), Err(ConfigError::InvalidExclude)));
    assert!(matches!(SuiClippyConfig::from_toml_str("exclude = [1]\n"), Err(ConfigError::InvalidExclude)));
    assert!(matches!(SuiClippyConfig::from_toml_str("lint = 3\n"), Err(ConfigError::InvalidLintTable)));
    match SuiClippyConfig::from_toml_str("[lint]\ntodo_comment = \"loud\"\n") {
        Err(ConfigError::InvalidLevel { lint, value }) => {
            assert_eq!(lint, "todo_comment");
            assert_eq!(value, "loud");
        }
        other => panic!("unexpected result, ok = {}", other.is_ok()),
    }
}

#[test]
fn invalid_glob_excludes_nothing() {
    let cfg = SuiClippyConfig::from_toml_str("exclude = [\"a[\"]\n").unwrap();
    assert!(!cfg.is_excluded("a["));
}

#[test]
fn line_comments() {
    assert!(is_line_comment_line("   // note"));
    assert!(is_line_comment_line("//"));
    assert!(!is_line_comment_line("let x = 1; // note"));
    assert!(!is_line_comment_line(""));
}

#[test]
fn line_and_column_of_byte() {
    let t = "ab\ncd\nef";
    assert_eq!(byte_index_to_line_col(t, 0), (1, 1));
    assert_eq!(byte_index_to_line_col(t, 1), (1, 2));
    assert_eq!(byte_index_to_line_col(t, 3), (2, 1));
    assert_eq!(byte_index_to_line_col(t, 7), (3, 2));
}

#[test]
fn braces_match() {
    let t = b"f() { if (x) { y } else { z } } tail";
    assert_eq!(matching_brace_end(t, 4), Some(30));
    assert_eq!(matching_brace_end(t, 13), Some(17));
    let s = b"{ \"}\\\"}\" }";
    assert_eq!(matching_brace_end(s, 0), Some(s.len() - 1));
    assert_eq!(matching_brace_end(b"{ {", 0), None);
    assert_eq!(matching_brace_end(b"x", 0), None);
}

#[test]
fn source_file_lines() {
    let f = SourceFile::new("/p/a.move".to_string(), "one\r\ntwo\n\nthree".to_string());
    assert_eq!(f.path(), "/p/a.move");
    let lines = f.lines();
    assert_eq!(lines, vec![(1, "one"), (2, "two"), (3, ""), (4, "three")]);
    let g = SourceFile::with_rel("/p/a.move".to_string(), String::new(), "sources\\a.move");
    assert_eq!(g.rel_to_package.as_deref(), Some("sources/a.move"));
    assert!(g.lines().is_empty());
}

#[test]
fn deeply_nested_glob_matches_nothing() {
    let mut pat = String::new();
    for _ in 0..300 {
        pat.push_str("{a,");
    }
    pat.push('b');
    for _ in 0..300 {
        pat.push('}');
    }
    let cfg = SuiClippyConfig::from_toml_str(&format!("exclude = [\"{pat}\"]\n")).unwrap();
    assert!(cfg.exclude_fits());
    assert!(!cfg.is_excluded("b"));
}
