[package]
name = "devc"
version = "0.1.0"
edition = "2021"
publish = false

[dependencies]
anyhow = "1"
json5 = "0.4"
serde = { version = "1", features = ["derive"] }
serde_json = { version = "1", features = ["preserve_order"] }
tar = "0.4"
ureq = "3"
