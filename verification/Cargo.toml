[package]
name = "dynatos"
version = "0.1.0"
edition = "2021"
publish = false

[dependencies]
priority-queue = "*"
petgraph = "*"
url = "*"
tracing = "*"
thiserror = "*"
tokio = { version = "*", features = ["sync", "rt"] }
futures = "*"
scopeguard = "*"
