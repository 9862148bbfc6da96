[package]
name = "backup_store"
version = "0.1.0"
edition = "2021"
publish = false

[dependencies]
openssl = "*"
uuid = { version = "*", features = ["v4"] }
