[package]
name = "composer"
version = "0.1.0"
edition = "2021"
publish = false

[dependencies]
anyhow = "1"
axum = "0.8"
futures = "0.3"
jiff = "0.2"
rand = "0.9"
reqwest = { version = "0.12", default-features = false, features = ["json", "stream", "rustls-tls"] }
serde = { version = "1", features = ["derive"] }
serde_json = "1"
shell-words = "1"
tokio = { version = "1", features = ["macros", "rt-multi-thread", "net", "process", "io-util", "time", "sync"] }
toml = "0.8"
ulid = "1"
