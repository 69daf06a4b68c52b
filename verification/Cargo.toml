[package]
name = "al_call_hierarchy"
version = "0.1.0"
edition = "2021"
publish = false

[dependencies]
anyhow = "*"
clap = { version = "*", features = ["derive"] }
env_logger = "*"
log = "*"
lsp-server = "*"
lsp-types = "*"
notify = "*"
rayon = "*"
roxmltree = "*"
serde = { version = "*", features = ["derive"] }
serde_json = "*"
smallvec = "*"
string-interner = "*"
tree-sitter = "*"
walkdir = "*"
zip = "*"
