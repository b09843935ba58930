[package]
name = "session_core"
version = "0.1.0"
edition = "2021"
publish = false

[dependencies]
time = "0.3"
anyhow = "1"
axum = "0.7"
deadpool-postgres = "0.14"
http = "1"
tokio = { version = "1", features = ["macros", "rt-multi-thread", "net"] }
tonic = "0.12"
tower = "0.5"
tower-http = { version = "0.6", features = ["cors"] }
tracing = "0.1"
tracing-subscriber = { version = "0.3", features = ["env-filter"] }
