[package]
name = "actflow_agent_sdk"
version = "0.1.0"
edition = "2021"
publish = false

[dependencies]
prost = "0.14"
prost-types = "0.14"
serde_json = "1"
tokio = { version = "1", features = ["macros", "rt-multi-thread", "sync"] }
tokio-stream = "0.1"
tonic = "0.14"
tonic-prost = "0.14"
