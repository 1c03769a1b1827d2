[package]
name = "saxon_core"
version = "0.1.0"
edition = "2021"
publish = false

[dependencies]
base64 = "0.22"
md5 = "0.7"
sha2 = "0.10"
uuid = { version = "1", features = ["v4"] }
serde_urlencoded = "0.7"
lofty = "0.18"
walkdir = "2"
reqwest = { version = "0.12", default-features = false, features = ["blocking", "json"] }
serde = { version = "1", features = ["derive"] }
serde_json = "1"
tiny_http = "0.12"
