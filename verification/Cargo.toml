[package]
name = "pngme"
version = "0.2.0"
edition = "2021"
publish = false

[dependencies]
clap = { version = "3.2", features = ["derive"] }
crc = "1.8.1"
reqwest = { version = "0.11", features = ["blocking"] }
