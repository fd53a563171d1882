[package]
name = "radiochron"
version = "0.3.0"
edition = "2021"
publish = false

[dependencies]
anyhow = "1"
embedded-svc = "*"
enumset = "1"
serde = { version = "1", features = ["derive"] }
serde_json = "1"
