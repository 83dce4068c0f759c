[package]
name = "rlunch"
version = "0.1.0"
edition = "2021"
publish = false

[dependencies]
anyhow = "*"
chrono = "*"
reqwest = { version = "*", default-features = false }
serde = { version = "*", features = ["derive"] }
serde_json = "*"
tokio = { version = "*", features = ["rt-multi-thread", "macros", "sync", "signal", "time"] }
tokio-cron-scheduler = "*"
uuid = { version = "*", features = ["v4"] }
