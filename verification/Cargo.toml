[package]
name = "crane_oai"
version = "0.1.0"
edition = "2021"
publish = false

[dependencies]
anyhow = "=1.0.104"
axum = "=0.8.9"
candle-core = "=0.9.2"
candle-nn = "=0.9.2"
candle-transformers = "=0.9.2"
clap = { version = "=4.6.7", features = ["derive"] }
futures-util = { version = "=0.3.34", default-features = false }
serde = { version = "=1.0.229", features = ["derive"] }
serde_json = "=1.0.154"
tokenizers = { version = "=0.21.4", default-features = false, features = ["fancy-regex"] }
tokio = { version = "=1.54.1", features = ["rt-multi-thread", "macros", "net", "sync"] }
tracing = "=0.1.44"
tracing-subscriber = "=0.3.23"
