[package]
name = "lunarzero"
version = "0.1.0"
edition = "2021"
publish = false

[dependencies]
anyhow = "1"
arc-swap = "1"
async-trait = "0.1"
axum = "0.8"
clap = { version = "4", features = ["derive"] }
clap_complete = "4"
dashmap = "6"
etcetera = "*"
futures = "0.3"
ignore = "0.4"
inquire = "0.7"
rand = "0.9"
ratatui = "0.29"
regex = "1"
schemars = "*"
serde = { version = "1", features = ["derive"] }
serde_json = "1"
similar = "2"
thiserror = "2"
tokio = { version = "1", features = ["full"] }
tokio-stream = { version = "0.1", features = ["sync"] }
tokio-util = "0.7"
tracing = "0.1"
tree-sitter = "*"
tree-sitter-go = "*"
tree-sitter-javascript = "*"
tree-sitter-python = "*"
tree-sitter-rust = "*"
tree-sitter-typescript = "*"
