[package]
name = "project_tools"
version = "0.1.0"
edition = "2021"
publish = false

[dependencies]
regex = "=1.13.1"
semver = "=1.0.28"
serde = { version = "=1.0.229", features = ["derive"] }
serde_json = "=1.0.154"
clap = { version = "=4.6.7", features = ["derive"] }
anyhow = "=1.0.104"
tokio = { version = "=1.54.1", features = ["rt-multi-thread", "time"] }
octocrab = "=0.47.1"
jsonwebtoken = "=9.3.1"
log = "=0.4.35"
