[package]
name = "lumen"
version = "0.1.0"
edition = "2021"
publish = false

[dependencies]
sha2 = "0.10"
hmac = "0.12"
rand = "0.8"
hex = "0.4"
base64 = "0.21"
bitcoin = { version = "0.30", features = ["rand-std"] }
bitcoincore-rpc = "0.17"
chrono = "0.4"
serde = { version = "1", features = ["derive"] }
serde_json = "1"
uuid = { version = "1", features = ["v4"] }
axum = "0.7"
tokio = { version = "1", features = ["full"] }
reqwest = { version = "0.12", features = ["json"] }
redb = "2"
bincode = "1"
tracing = "0.1"
tracing-subscriber = "0.3"
dotenvy = "0.15"
clap = { version = "4", features = ["derive"] }
wasmi = "0.31"
ldk-node = "0.2"
