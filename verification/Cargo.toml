[package]
name = "hashedbuild"
version = "0.1.0"
edition = "2021"
publish = false

[dependencies]
sha2 = "0.10"
base64 = "0.22"
unescaper = "0.1"
thiserror = "2"
clap = { version = "4.5", features = ["derive"] }
dirs = "6"
inquire = "0.7"
tree-sitter = "0.25"
