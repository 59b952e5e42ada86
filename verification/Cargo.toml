[package]
name = "incurs"
version = "0.1.0"
edition = "2021"
publish = false

[dependencies]
async-stream = "0.3"
async-trait = "0.1"
axum = "0.8"
dirs = "*"
futures = "0.3"
http = "1"
reqwest = { version = "*", default-features = false, features = ["stream"] }
rmcp = { version = "*", features = ["client", "server", "transport-io", "transport-child-process", "transport-streamable-http-client-reqwest", "transport-streamable-http-server"] }
serde = { version = "1", features = ["derive"] }
serde_json = "1"
serde_yaml_ng = "*"
sse-stream = "*"
thiserror = "2"
tiktoken-rs = "*"
tokio = { version = "1", features = ["full"] }
url = "2"
