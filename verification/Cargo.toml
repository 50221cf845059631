[package]
name = "pdf_ast"
version = "0.1.0"
edition = "2021"
publish = false

[dependencies]
indexmap = "2"
regex = "1"
serde = { version = "1", features = ["derive"] }
serde_json = "1"
flate2 = "1"
lzw = "*"
bytes = "1"
thiserror = "*"
