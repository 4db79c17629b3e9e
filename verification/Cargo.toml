[package]
name = "bip21"
version = "0.5.0"
edition = "2021"
publish = false

[dependencies]
bitcoin = { version = "0.32", default-features = false, features = ["std"] }
percent-encoding-rfc3986 = "0.1.3"
either = "1.8"
