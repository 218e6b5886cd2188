[package]
name = "aperio"
version = "0.1.0"
edition = "2021"
publish = false

[dependencies]
anyhow = "1"
askama = "*"
axum = "*"
dotenvy = "*"
jsonwebtoken = { version = "*", features = ["rust_crypto"] }
reqwest = { version = "0.12", default-features = false, features = ["json", "rustls-tls"] }
rmcp = { version = "*", features = ["server", "macros", "transport-streamable-http-server"] }
serde = { version = "1", features = ["derive"] }
serde_json = "1"
serde_yaml = "*"
thiserror = "*"
tokio = { version = "1", features = ["macros", "rt-multi-thread", "net"] }
tracing = "*"
tracing-subscriber = { version = "*", features = ["env-filter"] }
url = "2"
