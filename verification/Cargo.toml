[package]
name = "omnisql"
version = "1.0.6"
edition = "2021"
publish = false

[dependencies]
regex = "1"
sqlparser = "*"
serde = { version = "1", features = ["derive"] }
serde_json = "1"
anyhow = "1"
clap = { version = "4", features = ["derive"] }
logos = "*"
tokio = { version = "1", features = ["full"] }
tower-lsp = "0.20"
wasmtime = "25"
wasmtime-wasi = "25"
