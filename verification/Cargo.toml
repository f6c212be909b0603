[package]
name = "altium_format"
version = "0.2.0"
edition = "2021"
publish = false

[dependencies]
encoding_rs = "0.8"
flate2 = "1"
cfb = "*"
byteorder = "1"
uuid = { version = "1", features = ["v4"] }
serde = { version = "1", features = ["derive"] }
serde_json = "1"
serde_yaml = "*"
toml = "*"
thiserror = "*"
