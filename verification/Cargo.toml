[package]
name = "kukai"
version = "0.2.2"
edition = "2021"
publish = false

[dependencies]
anyhow = "*"
arrow-flight = "*"
clap = { version = "*", features = ["derive"] }
futures = "*"
reqwest = { version = "*", default-features = false }
serde = { version = "*", features = ["derive"] }
tokio = { version = "*", features = ["rt-multi-thread", "time", "sync"] }
tokio-stream = "*"
toml = "*"
tonic = "*"
tracing = "*"
tracing-subscriber = { version = "*", features = ["env-filter"] }
