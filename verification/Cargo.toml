[package]
name = "chaincraft"
version = "0.4.0"
edition = "2021"
publish = false

[dependencies]
sha2 = "0.10"
hex = "0.4"
uuid = { version = "1", features = ["v4", "serde"] }
chrono = { version = "0.4", features = ["serde"] }
serde = { version = "1", features = ["derive"] }
serde_json = "1"
serde_bytes = "0.11"
bincode = "1.3"
ed25519-dalek = "2"
k256 = { version = "0.13", features = ["ecdsa"] }
thiserror = "1"
tokio = { version = "1", features = ["full"] }
rand = "0.8"
lru = "0.12"
futures = "0.3"
async-trait = "0.1"
tracing = "0.1"
