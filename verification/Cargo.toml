[package]
name = "treesitter_mcp"
version = "0.1.0"
edition = "2021"
publish = false

[dependencies]
serde = { version = "=1.0.229", features = ["derive"] }
serde_json = "=1.0.154"
tiktoken-rs = "=0.12.1"
regex = "=1.13.1"
tree-sitter = "=0.27.1"
streaming-iterator = "=0.1.9"
rust-mcp-sdk = { version = "=2.0.0", default-features = false, features = ["server", "macros"] }
async-trait = "=0.1.92"
log = "=0.4.35"
eyre = "=0.6.14"
