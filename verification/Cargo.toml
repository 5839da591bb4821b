[package]
name = "pytest-language-server"
version = "0.1.0"
edition = "2021"
publish = false

[dependencies]
memchr = "2"
glob = "0.3"
serde_json = "1"
rustpython-parser = "0.4"
walkdir = "2"
rayon = "1"
colored = "*"
clap = { version = "4", features = ["derive"] }
tokio = { version = "1", features = ["rt-multi-thread", "macros", "io-std", "sync", "time"] }
tower-lsp-server = "*"
tracing = "0.1"
tracing-subscriber = { version = "0.3", features = ["env-filter"] }
dashmap = "6"
once_cell = "1"
