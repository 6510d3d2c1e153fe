[package]
name = "aionui_team"
version = "0.1.0"
edition = "2021"
publish = false

[dependencies]
serde_json = "1"
dashmap = "6"
async-trait = "0.1"
futures-util = "0.3"
tokio = { version = "1", features = ["sync", "time", "rt", "macros"] }
tracing = "0.1"
