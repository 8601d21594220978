[package]
name = "codegraph"
version = "0.1.0"
edition = "2021"
publish = false

[dependencies]
sha2 = "0.10"
hex = "0.4"
tree-sitter = "*"
tree-sitter-c = "*"
tree-sitter-c-sharp = "*"
tree-sitter-java = "*"
tree-sitter-lua = "*"
tree-sitter-php = "*"
tree-sitter-python = "*"
tree-sitter-ruby = "*"
tree-sitter-rust = "*"
tree-sitter-scala = "*"
tree-sitter-swift = "*"
tree-sitter-typescript = "*"
serde = { version = "1", features = ["derive"] }
serde_json = "1"
toml = "*"
toml_edit = "*"
camino = "1"
clap = { version = "4", features = ["derive"] }
dirs = "*"
ignore = "*"
which = "*"
rayon = "1"
notify = "*"
notify-debouncer-full = "*"
tokio = { version = "1", features = ["rt-multi-thread", "macros", "net"] }
axum = "*"
tracing = "0.1"
tracing-subscriber = { version = "0.3", features = ["env-filter"] }
