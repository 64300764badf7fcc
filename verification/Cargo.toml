[package]
name = "bucket_share_link"
version = "0.1.0"
edition = "2021"
publish = false

[dependencies]
sha3 = "*"
ed25519-compact = "*"
rand = "*"
base64 = "*"
serde = { version = "*", features = ["derive"] }
strum = { version = "*", features = ["derive"] }
url = "*"
time = "*"
uuid = { version = "*", features = ["v4"] }
aes-gcm = "*"
bitflags = "*"
