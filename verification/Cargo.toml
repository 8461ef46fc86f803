[package]
name = "bsl_extension"
version = "0.1.0"
edition = "2021"
publish = false

[dependencies]
anyhow = "1"
quick-xml = "0.37"
rusqlite = { version = "0.32", features = ["bundled"] }
serde_json = "1"
tracing = "0.1"
walkdir = "2"
zstd = "0.13"
