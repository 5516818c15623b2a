[package]
name = "rampage"
version = "0.1.0"
edition = "2021"
publish = false

[dependencies]
sha2 = "=0.10.9"
hex = "=0.4.3"
ed25519-dalek = { version = "=2.2.0", features = ["rand_core"] }
aes-gcm = "=0.10.3"
serde = { version = "=1.0.229", features = ["derive"] }
serde_json = "=1.0.154"
chrono = { version = "=0.4.45", features = ["serde"] }
uuid = { version = "=1.29.0", features = ["v4", "v7", "serde"] }
rand = "=0.8.8"
iroh-base = "=1.4.1"
subtle = "=2.6.1"
url = "=2.5.8"
