[package]
name = "agent_marketplace"
version = "0.1.0"
edition = "2021"
publish = false

[dependencies]
hex = "0.4"
hkdf = "0.12"
sha2 = "0.10"
p256 = { version = "0.13", features = ["ecdsa"] }
aes-gcm = "0.10"
serde = { version = "1", features = ["derive"] }
serde_json = "1"
alloy = { version = "1", default-features = false, features = ["std"] }
anyhow = "1"
clap = { version = "4", features = ["derive", "env"] }
tokio = { version = "1", features = ["rt-multi-thread", "macros", "net", "sync", "time", "fs", "io-util"] }
axum = "0.8"
rustls = { version = "0.23", default-features = false, features = ["ring", "std", "tls12", "logging"] }
webpki-roots = "0.26"
url = "2"
tracing = "0.1"
tracing-subscriber = "0.3"
