[package]
name = "tauwriter_lsp"
version = "0.1.0"
edition = "2021"
publish = false

[dependencies]
tower-lsp = "=0.20.0"
lsp-types = "=0.94.1"
tokio = { version = "=1.54.1", features = ["io-std", "macros", "rt-multi-thread", "sync", "time"] }
dashmap = "=6.2.1"
ropey = "=1.6.1"
serde = { version = "=1.0.229", features = ["derive"] }
serde_json = "=1.0.154"
tree-sitter = "=0.27.1"
tree-sitter-language = "=0.1.9"
streaming-iterator = "=0.1.9"
walkdir = "=2.5.0"
