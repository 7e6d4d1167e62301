[package]
name = "lean_ctx"
version = "0.1.0"
edition = "2021"
publish = false

[dependencies]
anyhow = "1"
axum = "0.8"
blake3 = "1"
chrono = "0.4"
deadpool-postgres = "*"
ed25519-dalek = "2"
serde = { version = "1", features = ["derive"] }
serde_json = "1"
tokio = { version = "1", features = ["rt", "sync"] }
tracing = "0.1"
