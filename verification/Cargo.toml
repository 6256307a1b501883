[package]
name = "gun"
version = "0.1.0"
edition = "2021"
publish = false

[dependencies]
aes-gcm = "0.10"
async-trait = "0.1"
base64 = "0.22"
bytes = "1"
chia-bls = "*"
chrono = "0.4"
futures-util = "0.3"
hex = "0.4"
p256 = { version = "0.13", features = ["ecdsa", "ecdh"] }
parking_lot = "0.12"
pbkdf2 = { version = "0.12", features = ["hmac"] }
rand = "0.8"
serde = { version = "1", features = ["derive"] }
serde_json = "1"
sha2 = "0.10"
sled = "0.34"
thiserror = "1"
tokio = { version = "1", features = ["full"] }
tokio-tungstenite = "0.21"
tracing = "0.1"
url = "2"
urlencoding = "2"
