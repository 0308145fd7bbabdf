[package]
name = "llm-lint"
version = "0.1.0"
edition = "2021"
publish = false

[dependencies]
regex = "1"
sha2 = "0.10"
textwrap = "0.16"
tree-sitter = "*"
tree-sitter-python = "*"
serde = { version = "1", features = ["derive"] }
serde_json = "1"
toml = "*"
thiserror = "*"
clap = { version = "4", features = ["derive"] }
comfy-table = "7"
crossterm = "*"

[dev-dependencies]
tempfile = "3"
