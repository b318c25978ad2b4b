[package]
name = "scrying"
version = "0.1.0"
edition = "2021"
publish = false

[dependencies]
image = { version = "=0.25.10", default-features = false, features = ["png"] }
url = "=2.5.8"
socks = "*"
