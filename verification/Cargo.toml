[package]
name = "diffie"
version = "0.1.0"
edition = "2021"
publish = false

[dependencies]
encoding_rs = "0.8"
keyring = "3"
tree-sitter = "*"
tree-sitter-cpp = "*"
tree-sitter-c-sharp = "*"
tree-sitter-hlsl = "*"
tree-sitter-rust = "*"
serde = { version = "1", features = ["derive"] }
serde_json = "1"
dirs = "*"
thiserror = "*"
