[package]
name = "mnemosyne"
version = "0.1.0"
edition = "2021"
publish = false

[dependencies]
ahash = "0.8"
aide = { version = "0.13", features = ["axum"] }
anyhow = "1"
axum = "0.7"
confy = "0.6"
enclose = "1"
moka = { version = "0.12", features = ["sync"] }
reqwest = { version = "0.12", default-features = false }
serde = { version = "1", features = ["derive"] }
tokio = { version = "1", features = ["full"] }
tower-http = { version = "0.5", features = ["set-header"] }
tracing = "0.1"
tracing-subscriber = "0.3"
url = { version = "2", features = ["serde"] }
uuid = { version = "1", features = ["v4"] }
