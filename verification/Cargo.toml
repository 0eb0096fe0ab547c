[package]
name = "nyash"
version = "0.1.0"
edition = "2021"
publish = false

[dependencies]
redb = "*"
rand = "0.9"
serde = { version = "1", features = ["derive"] }
serde_json = "1"
ocl = "*"
