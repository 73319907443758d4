[package]
name = "mesh"
version = "0.1.0"
edition = "2021"
publish = false

[dependencies]
semver = "1"
axum = "0.8"
tokio = { version = "1", features = ["macros", "rt-multi-thread", "net", "time", "sync"] }
serde = { version = "1", features = ["derive"] }
serde_json = "1"
config = { version = "0.15", default-features = false, features = ["toml"] }
dotenvy = "0.15"
tracing = "0.1"
tracing-subscriber = { version = "0.3", features = ["json"] }
anyhow = "1"
