[package]
name = "quent"
version = "0.1.0"
edition = "2021"
publish = false

[dependencies]
petgraph = "*"
serde = { version = "1", features = ["derive"] }
serde_json = "1"
bytes = "1"
tonic = "*"
tokio = { version = "1", features = ["full"] }
tokio-stream = "*"
tokio-util = "*"
http = "*"
tracing = "*"
uuid = { version = "1", features = ["serde"] }
thiserror = "*"
bitcode = { version = "*", features = ["serde"] }
