[package]
name = "pmp"
version = "0.1.0"
edition = "2021"
publish = false

[dependencies]
anyhow = "=1.0.104"
chrono = "0.4"
clap = { version = "4", features = ["derive"] }
inquire = "0.7"
regex = "1"
serde = { version = "=1.0.229", features = ["derive"] }
serde_json = "=1.0.154"
serde_yaml = "=0.9.34"
url = "2"
uuid = { version = "1", features = ["v4"] }
whoami = "1"
