use sui_clippy::typed::{move_compiler_feature_enabled, run_compiler_probe};

#[test]
fn typed_probe_reports_diagnostics_for_fixture_without_deps() {
    // The probe only runs in builds that carry the Move compiler.
    if !move_compiler_feature_enabled() {
        return;
    }
    let root = "tests/fixtures/pkg";
    let diags = run_compiler_probe(root).expect("probe");
    assert!(
        !diags.is_empty(),
        "expected Move compiler diagnostics (fixture references `sui::` without deps)"
    );
    assert!(diags.iter().all(|d| d.lint_id == "move_compiler"));
}

#[test]
fn probe_without_compiler_reports_nothing() {
    assert!(!move_compiler_feature_enabled());
    assert!(run_compiler_probe("/nowhere").unwrap().is_empty());
}
