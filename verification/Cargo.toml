[package]
name = "gocd_notify"
version = "0.1.0"
edition = "2021"
publish = false

[dependencies]
serde_json = "1"
hex = "0.4"
ring = "0.17"
reqwest = { version = "0.11", default-features = false, features = ["blocking", "json", "rustls-tls"] }
