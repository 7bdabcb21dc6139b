[package]
name = "repo_index"
version = "0.1.0"
edition = "2021"
publish = false

[dependencies]
ignore = "*"
serde_json = "*"
tree-sitter = "*"
tree-sitter-c-sharp = "*"
tree-sitter-cpp = "*"
tree-sitter-go = "*"
tree-sitter-java = "*"
tree-sitter-javascript = "*"
tree-sitter-python = "*"
tree-sitter-rust = "*"
tree-sitter-swift = "*"
tree-sitter-typescript = "*"
