[package]
name = "aibom"
version = "0.1.0"
edition = "2021"
publish = false

[dependencies]
spdx = "*"
serde = { version = "*", features = ["derive"] }
serde_json = "*"
reqwest = { version = "*", default-features = false, features = ["blocking", "json"] }
clap = { version = "*", features = ["derive"] }
uuid = { version = "*", features = ["v4"] }
chrono = "*"
