[package]
name = "task_queue"
version = "0.1.0"
edition = "2021"
publish = false

[dependencies]
serde_json = "*"
uuid = { version = "*", features = ["v4"] }
serde = { version = "*", features = ["derive"] }
redis = { version = "*", features = ["tokio-comp"] }
tokio = { version = "*", features = ["process", "rt-multi-thread", "macros", "io-util"] }
aws-config = { version = "*", features = ["behavior-version-latest"] }
aws-credential-types = "*"
aws-sdk-s3 = "*"
bytes = "*"
tempfile = "*"
walkdir = "*"
zip = { version = "*", default-features = false }
