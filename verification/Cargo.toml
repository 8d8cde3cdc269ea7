[package]
name = "agoralume"
version = "0.1.0"
edition = "2021"
publish = false

[dependencies]
sha2 = "=0.11.1"
uuid = { version = "=1.29.0", features = ["v4"] }
argon2 = "=0.6.0"
chrono = "=0.4.45"
serde = { version = "=1.0.229", features = ["derive"] }
serde_json = "=1.0.154"
toml = "=1.1.8"
tokio = { version = "=1.54.1", features = ["full"] }
axum = "=0.8.9"
tower-http = { version = "=0.7.1", features = ["cors", "fs"] }
tracing = "=0.1.44"
tracing-subscriber = "=0.3.23"
async-trait = "=0.1.92"
dotenvy = "=0.15.7"
utoipa = "=6.0.0"
utoipa-axum = "=0.3.0"
tokio-stream = "=0.1.19"
webbrowser = "=1.2.6"
