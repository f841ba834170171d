[package]
name = "callout"
version = "0.1.0"
edition = "2021"
publish = false

[dependencies]
tokio = { version = "1", features = ["full"] }
strsim = "0.11"
uuid = { version = "1", features = ["v4"] }
anyhow = "1"
axum = "0.7"
clap = { version = "4", features = ["derive"] }
serde = { version = "1", features = ["derive"] }
serde_json = "1"
toml = "0.8"
toml_edit = "0.22"
tracing = "0.1"
tracing-subscriber = { version = "0.3", features = ["env-filter"] }
tracing-appender = "0.2"
ureq = { version = "2", features = ["json"] }
dirs = "5"
rubato = "0.15"

[dev-dependencies]
serde_json = "1"
