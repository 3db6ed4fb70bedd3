[package]
name = "edunode"
version = "0.1.0"
edition = "2021"
publish = false

[dependencies]
chrono = { version = "=0.4.45", default-features = false, features = ["std", "serde"] }
ipfs-api = { version = "0.16.0", default-features = false, features = ["with-hyper"] }
postcard = { version = "=1.1.3", default-features = false, features = ["alloc"] }
serde = { version = "=1.0.229", features = ["derive"] }
soroban-sdk = "=23.5.3"
thiserror-no-std = "=2.0.2"
wee_alloc = "=0.4.5"
