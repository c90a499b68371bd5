[package]
name = "packfile"
version = "0.1.0"
edition = "2021"
publish = false

[dependencies]
bytes = "*"
flate2 = "*"
hex = "*"
sha1 = "*"
thiserror = "*"
time = "*"
tokio-util = { version = "*", features = ["codec"] }
