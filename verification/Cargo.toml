[package]
name = "timeblock"
version = "0.1.0"
edition = "2021"
publish = false

[dependencies]
ring = "*"
base64 = "*"
hex = "*"
urlencoding = "*"
serde_json = "*"
chrono = "*"
rusqlite = { version = "*", features = ["bundled"] }
reqwest = { version = "*", default-features = false, features = ["blocking", "json", "rustls-tls"] }
