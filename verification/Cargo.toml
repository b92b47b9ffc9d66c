[package]
name = "cctl"
version = "0.1.0"
edition = "2021"
publish = false

[dependencies]
anyhow = "*"
backoff = { version = "*", features = ["tokio"] }
casper-client = "*"
casper-types = "*"
clap = { version = "*", features = ["derive"] }
hex = "*"
nom = "*"
sd-notify = "*"
serde = { version = "*", features = ["derive"] }
serde_json = "*"
tempfile = "*"
tokio = { version = "*", features = ["macros", "rt-multi-thread", "signal"] }
tracing = "*"
tracing-subscriber = { version = "*", features = ["env-filter"] }
