[package]
name = "dcreel"
version = "0.1.0"
edition = "2021"
publish = false

[dependencies]
uuid = { version = "1", features = ["v4"] }
serde = { version = "1", features = ["derive"] }
serde_json = "1"
log = "0.4"
time = { version = "0.3", features = ["formatting"] }
thiserror = "2"
dirs = "*"
