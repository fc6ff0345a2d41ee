[package]
name = "dispatch"
version = "0.1.0"
edition = "2021"
publish = false

[dependencies]
anyhow = "=1.0.104"
serde_json = "=1.0.154"
tokio = { version = "=1.54.1", features = ["rt", "macros", "process", "sync", "time"] }
tracing = "=0.1.44"
