[package]
name = "crusher"
version = "0.1.0"
edition = "2021"
publish = false

[dependencies]
clap = { version = "4", features = ["derive"] }
tqdm = "*"
tree-sitter = "0.22"
tree-sitter-rust = "0.21"
walkdir = "2"
