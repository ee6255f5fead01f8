[package]
name = "stimkerbot"
version = "0.1.0"
edition = "2021"
publish = false

[dependencies]
flate2 = "*"
base64 = "*"
time-humanize = "*"

[dev-dependencies]
serde_json = "*"
