[package]
name = "lab-core"
version = "0.1.0"
edition = "2021"
publish = false

[dependencies]
indexmap = "2"
regex = "1"
globset = "0.4"
glob = "0.3"
base64 = "0.22"
serde = { version = "1", features = ["derive"] }
serde_json = "1"
serde_yaml = "0.9"
clap = { version = "4", features = ["derive"] }
clap_complete = "4"
console = "0.15"
tokio = { version = "1", features = ["full"] }
bollard = "0.18"
futures = "0.3"
tracing = "0.1"
tracing-subscriber = { version = "0.3", features = ["env-filter"] }
anyhow = "1"
thiserror = "2"
