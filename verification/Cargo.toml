[package]
name = "a2ldeser"
version = "0.1.0"
edition = "2021"
publish = false

[dependencies]
a2lfile = "3.3.2"
ihex = "3.0.0"
clap = { version = "4", features = ["derive"] }
serde = { version = "1", features = ["derive"] }
serde_json = "1"
