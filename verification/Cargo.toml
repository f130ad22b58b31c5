[package]
name = "undertow-protocol"
version = "0.1.2"
edition = "2021"
publish = false

[dependencies]
anyhow = "=1.0.104"
bytes = "=1.12.1"
crc32fast = "=1.5.4"
dirs = "=5.0.1"
hex = "=0.4.3"
iroh = { version = "=1.4.1", default-features = false, features = ["tls-ring"] }
rand = "=0.8.8"
serde = { version = "=1.0.229", features = ["derive"] }
serde_json = "=1.0.154"
sha2 = "=0.10.9"
thiserror = "=2.0.21"
tokio = { version = "=1.54.1", features = ["rt-multi-thread", "macros", "net", "time", "sync", "io-util"] }
toml = "=0.8.23"
x25519-dalek = { version = "=2.0.1", features = ["static_secrets"] }
