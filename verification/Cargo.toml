[package]
name = "plugin_scopes"
version = "0.1.0"
edition = "2021"
publish = false

[dependencies]
anyhow = "=1.0.104"
dprint-core = { version = "=0.63.3", features = ["process"] }
indexmap = "=2.14.2"
thiserror = "=1.0.69"
tokio = { version = "=1.54.1", features = ["sync", "io-std", "rt", "macros"] }
tower-lsp = "=0.20.0"
