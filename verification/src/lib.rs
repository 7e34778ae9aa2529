//! Sui Move linter core: lint metadata, source and manifest lint passes,
//! level resolution, and report building.

pub mod lint_meta;
pub mod diagnostic;
pub mod text;
pub mod chars;
pub mod pattern;
pub mod seq_util;
pub mod lints;
pub mod source_file;
pub mod toml_model;
pub mod config;
pub mod paths;
pub mod lint_engine;
pub mod manifest;
pub mod catalog;
pub mod order;
pub mod report;
pub mod sarif;
pub mod cli;
pub mod lsp;
pub mod workspace;
pub mod typed;
pub mod docgen;
