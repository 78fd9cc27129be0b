[package]
name = "yrs-ax"
version = "0.0.1"
edition = "2021"
publish = false

[dependencies]
axum = { version = "0.8", features = ["ws"] }
bytes = "1"
futures-util = { version = "0.3", features = ["sink"] }
serde = { version = "1", features = ["derive"] }
serde_json = "1"
tokio = { version = "1", features = ["full"] }
tracing = "0.1"
