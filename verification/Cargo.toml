[package]
name = "psptool"
version = "0.1.0"
edition = "2021"
publish = false

[dependencies]
aes = "0.8"
anyhow = "1"
bytes = "1"
cbc = "0.1"
clap = { version = "4", features = ["derive"] }
flate2 = "1"
md-5 = "0.10"
rand = "0.8"
regex = "1"
rsa = "0.9"
serde_json = "1"
sha2 = { version = "0.10", features = ["oid"] }
