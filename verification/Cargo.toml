[package]
name = "my_remote_speaker"
version = "0.1.0"
edition = "2021"
publish = false

[dependencies]
base64 = "*"
chrono = "*"
crossfire = "*"
ctrlc = "*"
dashmap = "*"
futures-util = "*"
iroh = { version = "*", default-features = false }
rsntp = { version = "*", features = ["chrono"] }
serde = { version = "*", features = ["derive"] }
serde_bytes = "*"
serde_json = "*"
sha2 = "*"
snafu = "*"
tempfile = "*"
thiserror = "*"
tokio = { version = "*", features = ["full"] }
tokio-util = { version = "*", features = ["rt"] }
tracing = "*"
tracing-subscriber = { version = "*", features = ["env-filter"] }
