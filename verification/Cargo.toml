[package]
name = "onzer"
version = "0.1.0"
edition = "2021"
publish = false

[dependencies]
unicode-normalization = "=0.1.26"
serde = { version = "=1.0.229", features = ["derive"] }
serde_json = "=1.0.154"
uuid = { version = "=1.29.0", features = ["v4"] }
blake3 = "1"
image = { version = "0.25", default-features = false, features = ["jpeg", "png"] }
lofty = "*"
rusty-chromaprint = "*"
