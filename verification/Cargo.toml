[package]
name = "tablify"
version = "0.1.0"
edition = "2021"
publish = false

[dependencies]
regex = "=1.13.1"
unicode-width = "=0.1.11"
clap = { version = "=4.6.7", features = ["derive"] }
