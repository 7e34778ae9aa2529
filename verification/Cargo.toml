[package]
name = "sui_clippy"
version = "0.4.0"
edition = "2021"
publish = false

[dependencies]
regex = "1"
toml = "*"
globset = "0.4"
serde = { version = "1", features = ["derive"] }
serde_json = "1"
anyhow = "1"
clap = { version = "4", features = ["derive"] }
walkdir = "2"
url = "2"
lsp-server = "*"
lsp-types = "*"
