[package]
name = "mdblog"
version = "0.1.0"
edition = "2021"
publish = false

[dependencies]
chrono = "*"
markdown = "*"
serde_json = "*"
clap = { version = "*", features = ["derive"] }
