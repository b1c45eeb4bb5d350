[package]
name = "dlq"
version = "0.1.0"
edition = "2021"
publish = false

[dependencies]
anyhow = "1"
async-channel = "2"
aws-config = { version = "1", features = ["behavior-version-latest"] }
aws-sdk-sqs = { version = "1", features = ["behavior-version-latest"] }
clap = { version = "4", features = ["derive"] }
indicatif = "*"
pumps = "*"
serde = { version = "1", features = ["derive"] }
serde_json = "1"
sqlx = { version = "0.8", features = ["sqlite", "runtime-tokio", "chrono", "json"] }
tokio = { version = "1", features = ["full"] }
tracing = "0.1"
uuid = { version = "1", features = ["v4"] }
