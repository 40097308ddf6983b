[package]
name = "logstream"
version = "0.1.0"
edition = "2021"
publish = false

[dependencies]
uuid = { version = "*", features = ["v4"] }
chrono = "*"
tokio = { version = "*", features = ["full"] }
dashmap = "*"
serde = { version = "*", features = ["derive"] }
serde_json = "*"
toml = "*"
clap = { version = "*", features = ["derive"] }
gethostname = "*"
tracing = "*"
tracing-subscriber = { version = "*", features = ["env-filter"] }
log = "*"
systemd-journal-logger = "*"
tracing-journald = "*"
