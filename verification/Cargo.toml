[package]
name = "niiebla"
version = "0.1.0"
edition = "2021"
publish = false

[dependencies]
aes = "0.8"
block-padding = "0.3"
cbc = "0.1"
crc = "3"
ctr = "0.9"
hmac = "0.12"
sha1 = "0.10"
sha2 = "0.10"
thiserror = "2"
