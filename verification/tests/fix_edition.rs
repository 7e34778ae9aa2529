use sui_clippy::manifest::fix::{add_default_edition, FixError};

const BAD_MANIFEST: &str = "[package]
name = \"bad_manifest\"
version = \"0.0.1\"

[dependencies]
Sui = { git = \"https://github.com/MystenLabs/sui.git\", subdir = \"crates/sui-framework/packages/sui-framework\" }
";

#[test]
fn insert_edition_writes_move_toml() {
    let raw = "[package]\nname = \"tmp\"\nversion = \"0.0.1\"\n\n[dependencies]\n";
    let out = add_default_edition(raw, "2024.beta").unwrap().expect("edition inserted");
    assert!(out.contains("edition = \"2024.beta\""));
    assert!(add_default_edition(&out, "2024.beta").unwrap().is_none());
}

#[test]
fn insert_edition_from_fixture_template() {
    let out = add_default_edition(BAD_MANIFEST, "2024.beta").unwrap().expect("edition inserted");
    let v: toml::Value = toml::from_str(&out).unwrap();
    assert_eq!(v["package"]["edition"].as_str(), Some("2024.beta"), "{v:?}");
}

#[test]
fn insert_edition_goes_right_after_the_package_line() {
    let raw = "# top\n[package]\nname = \"tmp\"\n";
    let out = add_default_edition(raw, "2024").unwrap().unwrap();
    assert_eq!(out, "# top\n[package]\nedition = \"2024\"\nname = \"tmp\"\n");
}

#[test]
fn insert_edition_errors() {
    assert!(matches!(add_default_edition("[package\n", "2024"), Err(FixError::Parse(_))));
    assert!(matches!(add_default_edition("[other]\nx = 1\n", "2024"), Err(FixError::NoPackageTable)));
    assert!(matches!(add_default_edition("package = { name = \"x\" }\n", "2024"), Err(FixError::NoPackageLine)));
}

#[test]
fn insert_edition_after_a_commented_header() {
    let out = add_default_edition("[package] # main\nname = \"x\"\n", "2024.beta").unwrap().unwrap();
    assert_eq!(out, "[package] # main\nedition = \"2024.beta\"\nname = \"x\"\n");
    let out = add_default_edition("  [ package ]  \nname = \"x\"\n", "2024").unwrap().unwrap();
    assert_eq!(out, "  [ package ]  \nedition = \"2024\"\nname = \"x\"\n");
    let out = add_default_edition("[package]\neditions = 1\n", "2024").unwrap().unwrap();
    assert_eq!(out, "[package]\nedition = \"2024\"\neditions = 1\n");
    assert!(matches!(
        add_default_edition("package.name = \"x\"\n[packaged]\n", "2024"),
        Err(FixError::NoPackageLine)
    ));
}
