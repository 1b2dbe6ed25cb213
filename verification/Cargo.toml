[package]
name = "void"
version = "0.1.0"
edition = "2021"
publish = false

[dependencies]
petgraph = "0.6"
uuid = { version = "1", features = ["v4"] }
glam = "0.29"
ratatui = "0.29"
crossterm = { version = "0.28", features = ["event-stream"] }
tokio = { version = "1", features = ["full"] }
futures = "0.3"
anyhow = "1"
tracing = "0.1"
tracing-subscriber = { version = "0.3", features = ["env-filter"] }
serde = { version = "1", features = ["derive"] }
