[package]
name = "rustweb_code"
version = "0.1.0"
edition = "2021"
publish = false

[dependencies]
num = "0.4"
base64 = "0.13"
notify = "6"
crossbeam-channel = "0.5"
zip = { version = "2", default-features = false, features = ["deflate"] }
