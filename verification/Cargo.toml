[package]
name = "scat"
version = "0.1.0"
edition = "2021"
publish = false

[dependencies]
anyhow = "=1.0.104"
chrono = "=0.4.45"
clap = { version = "=4.6.7", features = ["derive"] }
clap_complete = "4"
comfy-table = "=7.2.2"
crossterm = "=0.29.0"
ctrlc = "3"
hex = "=0.4.3"
ignore = "=0.4.34"
indicatif = "*"
ratatui = "=0.30.2"
rayon = "=1.12.0"
regex = "=1.13.1"
rusqlite = { version = "=0.41.1", features = ["bundled", "backup"] }
serde = { version = "=1.0.229", features = ["derive"] }
serde_json = "=1.0.154"
sha2 = "=0.10.9"
tempfile = "=3.27.0"
tracing = "0.1"
tracing-subscriber = { version = "0.3", features = ["env-filter"] }
tree-sitter = "=0.27.1"
tree-sitter-bash = "=0.25.1"
tree-sitter-highlight = "=0.27.1"
tree-sitter-json = "=0.24.8"
tree-sitter-python = "=0.25.0"
tree-sitter-yaml = "=0.7.2"
unicode-width = "=0.2.3"
yaml_serde = "*"
