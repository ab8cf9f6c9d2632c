[package]
name = "ratatoskr_nodes"
version = "0.1.0"
edition = "2021"
publish = false

[dependencies]
serde = { version = "1", features = ["derive"] }
serde_json = "1"
schemars = "1"
thiserror = "2"
tokio = { version = "1", features = ["fs", "process", "rt", "time"] }
tracing = "0.1"
uuid = { version = "1", features = ["v4"] }
reqwest = { version = "0.12", default-features = false, features = ["json"] }
rmcp = { version = "*", default-features = false, features = ["client"] }
