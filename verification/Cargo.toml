[package]
name = "oqqwall"
version = "0.1.0"
edition = "2021"
publish = false

[dependencies]
crc32fast = "1.4"
sha2 = "0.10"
base64 = "0.22"
image = { version = "0.25", default-features = false, features = ["png", "jpeg", "gif"] }
serde = { version = "1", features = ["derive"] }
serde_json = "1"
bincode = "1.3"
imagesize = "0.13"
qrcode = { version = "0.14", default-features = false }
tokio = { version = "1", default-features = false, features = ["sync", "rt", "macros"] }
reqwest = { version = "0.12", default-features = false }
