[package]
name = "cblrs"
version = "0.1.0"
edition = "2021"
publish = false

[dependencies]
clap = { version = "4", features = ["derive"] }
indicatif = "0.17"
serde = { version = "1", features = ["derive"] }
serde_json = "1"
serde-xml-rs = "0.6"
thiserror = "1"
uuid = { version = "1", features = ["v4"] }
xml-rs = "0.8"
