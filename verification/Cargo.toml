[package]
name = "ambilight"
version = "0.1.0"
edition = "2021"
publish = false

[dependencies]
anyhow = "*"
clap = { version = "*", features = ["derive"] }
serialport = { version = "*", default-features = false }
windows-capture = "*"
