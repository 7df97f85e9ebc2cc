[package]
name = "rtok"
version = "0.1.0"
edition = "2021"
publish = false

[dependencies]
sha2 = "=0.10.9"
similar = "=2.7.0"
regex = "=1.13.1"
printpdf = "=0.12.8"
tree-sitter = "=0.27.1"
tree-sitter-tags = "=0.27.1"
tree-sitter-rust = "=0.24.2"
tree-sitter-python = "=0.25.0"
tree-sitter-go = "=0.25.0"
tree-sitter-javascript = "=0.25.0"
tree-sitter-typescript = "=0.23.2"
tree-sitter-c = "=0.24.2"
tree-sitter-dart = "=0.3.0"
serde_json = "=1.0.154"
anyhow = "=1.0.104"
url = "2"
