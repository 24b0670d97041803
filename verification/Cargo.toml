[package]
name = "slack_history"
version = "0.1.0"
edition = "2021"
publish = false

[dependencies]
anyhow = "1"
envy = "0.4"
fallible-iterator = "0.2"
reqwest = { version = "0.11", features = ["blocking", "json"] }
serde = { version = "1", features = ["derive"] }
serde_json = "1"
