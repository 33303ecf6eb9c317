[package]
name = "vedavid-connector"
version = "0.1.0"
edition = "2021"
publish = false

[dependencies]
tokio = { version = "1", features = ["macros", "rt-multi-thread", "sync", "time"] }
notify = "8"
tracing = "0.1"

[dev-dependencies]
serde_json = "1"
