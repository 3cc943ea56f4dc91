[package]
name = "bunbun"
version = "0.1.0"
edition = "2021"
publish = false

[dependencies]
arc-swap = "1"
serde_json = "1"
percent-encoding = "2"
axum = "0.5"
tokio = { version = "1", features = ["full"] }
clap = { version = "3", features = ["derive"] }
serde = { version = "1", features = ["derive"] }
serde_yaml = "0.8"
handlebars = "4"
hotwatch = "0.4"
dirs = "4"
tracing = "0.1"
tracing-subscriber = { version = "0.3", features = ["env-filter"] }
anyhow = "1"
log = "0.4"
