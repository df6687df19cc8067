[package]
name = "br_lsp"
version = "0.1.0"
edition = "2021"
publish = false

[dependencies]
tree-sitter = "*"
tower-lsp = "*"
tokio = { version = "*", features = ["full"] }
dashmap = "*"
ropey = "*"
serde = { version = "*", features = ["derive"] }
serde_json = "*"
walkdir = "*"
rayon = "*"
log = "*"
env_logger = "*"
