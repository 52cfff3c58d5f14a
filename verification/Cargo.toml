[package]
name = "toot"
version = "0.1.0"
edition = "2021"
publish = false

[dependencies]
getopts = "*"
mammut = "*"
serde = { version = "*", features = ["derive"] }
serde_json = "*"
failure = "*"
