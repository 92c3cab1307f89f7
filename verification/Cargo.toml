[package]
name = "loglyzer"
version = "1.0.0"
edition = "2021"
publish = false

[dependencies]
clap = { version = "4", features = ["derive"] }
prettytable-rs = { version = "0.10", default-features = false }
regex = "1"
serde = { version = "1", features = ["derive"] }
serde_json = "1"
