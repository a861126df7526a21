[package]
name = "mewc_solo_pool"
version = "0.1.0"
edition = "2021"
publish = false

[dependencies]
anyhow = "1"
bs58 = "=0.5.1"
chrono = "=0.4.45"
config = { version = "0.14", default-features = false, features = ["toml"] }
hex = "=0.4.3"
meowpow = "=0.1.0"
reqwest = { version = "0.12", default-features = false, features = ["json", "rustls-tls"] }
serde = { version = "1", features = ["derive"] }
serde_json = "1"
sha2 = "=0.10.9"
tokio = { version = "1", features = ["full"] }
tracing = "0.1"
tracing-subscriber = { version = "0.3", features = ["env-filter"] }
uuid = { version = "=1.29.0", features = ["v4"] }
zmq = "0.10"
