[package]
name = "ironclaw_memory"
version = "0.1.0"
edition = "2021"
publish = false

[dependencies]
sha2 = "0.10"
hex = "0.4"
lru = "*"
serde = { version = "1", features = ["derive"] }
serde_json = "1"
chrono = { version = "0.4", features = ["serde"] }
chrono-tz = "0.10"
uuid = { version = "1", features = ["v4", "serde"] }
tokio = { version = "1", features = ["sync", "time", "macros", "rt"] }
tracing = "0.1"
anyhow = "1"
async-trait = "0.1"
clap = { version = "4", features = ["derive"] }
axum = { version = "0.8", default-features = false }
deadpool-postgres = "*"
tokio-postgres = "*"
pgvector = { version = "*", features = ["postgres"] }
