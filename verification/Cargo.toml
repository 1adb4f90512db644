[package]
name = "re5-save-editor"
version = "0.1.0"
edition = "2021"
publish = false

[dependencies]
num-bigint = "*"
sha1 = "*"
serde = { version = "1", features = ["derive"] }
serde_json = "1"
chrono = "*"
