[package]
name = "cct_transcripts"
version = "0.1.0"
edition = "2021"
publish = false

[dependencies]
serde = { version = "=1.0.229", features = ["derive"] }
serde_json = "=1.0.154"
clap = { version = "=4.6.7", features = ["derive"] }
chrono = "=0.4.45"
duckdb = { version = "=1.20000.1", default-features = false }
libduckdb-sys = { version = "=1.20000.1", default-features = false, features = ["capi-v1"] }
