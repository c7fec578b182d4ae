[package]
name = "chat_completions"
version = "0.1.0"
edition = "2021"
publish = false

[dependencies]
http = "1"
serde_json = "1"
reqwest = { version = "0.12", default-features = false, features = ["blocking", "stream"] }
tokio = { version = "1", features = ["rt", "sync", "time"] }
futures = "0.3"
eventsource-stream = "0.2"
tracing = "0.1"
async-trait = "0.1"
