[package]
name = "p2ptokens"
version = "0.1.0"
edition = "2021"
publish = false

[dependencies]
libp2p-identity = { version = "0.2", features = ["ed25519", "peerid", "rand"] }
base64 = "0.22"
dashmap = "6"
uuid = { version = "1", features = ["v4"] }
serde = { version = "1", features = ["derive"] }
serde_json = "1"
toml = "0.8"
anyhow = "1"
tokio = { version = "1", features = ["full"] }
axum = "0.8"
reqwest = { version = "0.12", default-features = false, features = ["json", "stream"] }
clap = { version = "4", features = ["derive", "env"] }
tracing = "0.1"
tracing-subscriber = { version = "0.3", features = ["env-filter"] }
futures = "0.3"
async-stream = "0.3"
libp2p = { version = "0.54", features = ["tokio", "tcp", "noise", "yamux", "macros", "identify", "ping", "relay", "dcutr"] }
libp2p-stream = "0.2.0-alpha"
