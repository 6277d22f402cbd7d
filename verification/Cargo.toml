[package]
name = "hyntix"
version = "0.1.0"
edition = "2021"
publish = false

[dependencies]
crc = "*"
uuid = { version = "*", features = ["v4"] }
unicode-normalization = "*"
blake3 = "*"
byteorder = "*"
thiserror = "*"
log = "*"
libc = "*"
crossbeam-channel = "*"
clap = { version = "*", features = ["derive"] }
tracing = "*"
tracing-subscriber = "*"
anyhow = "*"
android_logger = "*"
uniffi = { version = "*", default-features = false }
