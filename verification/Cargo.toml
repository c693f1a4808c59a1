[package]
name = "codeloupe_mcp"
version = "0.1.0"
edition = "2021"
publish = false

[dependencies]
bytecount = "=0.6.9"
encoding_rs = "=0.8.44"
flate2 = "=1.1.10"
fuzzy-matcher = "=0.3.7"
glob = "=0.3.4"
grep-regex = "=0.1.14"
grep-searcher = "=0.1.17"
heed = "=0.22.1"
ignore = "=0.4.34"
regex = "=1.13.1"
serde_json = "=1.0.154"
similar = "=2.7.0"
tantivy = "=0.27.0"
tar = "=0.4.46"
tokio = { version = "=1.54.1", features = ["full"] }
tree-sitter = "=0.27.1"
tree-sitter-c = "=0.24.2"
tree-sitter-c-sharp = "=0.23.5"
tree-sitter-cpp = "=0.23.4"
tree-sitter-go = "=0.25.0"
tree-sitter-java = "=0.23.5"
tree-sitter-javascript = "=0.25.0"
tree-sitter-objc = "=3.0.2"
tree-sitter-php = "=0.25.1"
tree-sitter-python = "=0.25.0"
tree-sitter-ruby = "=0.23.1"
tree-sitter-rust = "=0.24.2"
tree-sitter-swift = "=0.7.4"
tree-sitter-typescript = "=0.23.2"
zip = "=9.2.2"
