[package]
name = "toolcase-gateway"
version = "0.1.0"
edition = "2021"
publish = false

[dependencies]
dotenvy = "0.15"
serde = { version = "1", features = ["derive"] }
serde_json = "1"
ureq = { version = "3", features = ["json"] }
uuid = { version = "1", features = ["v4"] }
