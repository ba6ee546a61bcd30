[package]
name = "lellm_graph"
version = "0.4.0"
edition = "2021"
publish = false

[dependencies]
async-trait = "0.1"
futures = "0.3"
indexmap = "2"
serde = { version = "1", features = ["derive"] }
serde_json = "1"
thiserror = "2"
tokio = { version = "1", features = ["macros", "rt", "sync", "time"] }
tokio-util = "0.7"
tracing = "0.1"
uuid = { version = "1", features = ["serde", "v4"] }
