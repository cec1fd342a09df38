[package]
name = "matrix_irc_bridge"
version = "0.1.0"
edition = "2021"
publish = false

[dependencies]
dotenv = "0.15"
env_logger = "0.11"
futures = "0.3"
irc = { version = "1", default-features = false, features = ["tls-rust"] }
log = "0.4"
matrix-sdk = { version = "0.7", default-features = false, features = ["e2e-encryption", "automatic-room-key-forwarding", "rustls-tls"] }
matrix-sdk-base = { version = "0.7", default-features = false }
tokio = { version = "1", features = ["full"] }
url = "2"
