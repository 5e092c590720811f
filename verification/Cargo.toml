[package]
name = "ncrawler"
version = "0.1.0"
edition = "2021"
publish = false

[dependencies]
anyhow = "=1.0.104"
arrow-array = "=60.1.0"
arrow-schema = "=60.1.0"
async-trait = "=0.1.92"
blake3 = "=1.8.7"
chrono = { version = "=0.4.45", default-features = false, features = ["std", "clock", "serde"] }
clap = { version = "=4.6.7", features = ["derive"] }
fastembed = { version = "=7.5.0", default-features = false, features = ["hf-hub", "ort-load-dynamic"] }
qdrant-client = { version = "=1.20.0", features = ["serde"] }
regex = "=1.13.1"
serde = { version = "=1.0.229", features = ["derive"] }
serde_json = "=1.0.154"
thiserror = "=2.0.21"
tokio = { version = "=1.54.1", features = ["macros", "rt-multi-thread", "signal", "sync"] }
tracing = "=0.1.44"
tracing-subscriber = { version = "=0.3.23", features = ["env-filter"] }
