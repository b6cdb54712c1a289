[package]
name = "voice_gender"
version = "0.1.0"
edition = "2021"
publish = false

[dependencies]
anyhow = "1"
axum = "0.8"
candle-core = "*"
candle-nn = "*"
clap = { version = "4", features = ["derive"] }
hf-hub = { version = "*", default-features = false, features = ["ureq", "rustls-tls"] }
hound = "3.5"
serde = { version = "1", features = ["derive"] }
serde_json = "1"
tokio = { version = "1", features = ["macros", "net", "rt-multi-thread", "signal", "sync"] }
tracing = "0.1"
tracing-subscriber = "0.3"
