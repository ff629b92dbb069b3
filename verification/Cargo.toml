[package]
name = "storm"
version = "0.1.0"
edition = "2021"
publish = false

[dependencies]
base64 = "0.13"
ed25519-dalek = "1"
hex = "0.4"
bimap = "*"
bisetmap = "*"
torut = "*"
bramble-crypto = "*"
bramble-common = "*"
bramble-sync = "*"
bramble-rendezvous = "*"
bramble-transport = "*"
rand = "0.8"
tokio = { version = "1", features = ["full"] }
futures = "0.3"
async-channel = "*"
serde_json = "1"
portpicker = "*"
tokio-socks = "*"
rusqlite = "*"
log = "0.4"
