[package]
name = "sin"
version = "0.1.0"
edition = "2021"
publish = false

[dependencies]
anyhow = "1"
base64 = "0.21"
clap = { version = "4", features = ["derive"] }
clap-verbosity-flag = "2"
encoding_rs = "0.8"
log = "0.4"
log4rs = "1"
memchr = "2"
once_cell = "1"
ouroboros = "0.18"
peg = "0.8"
rustls = "0.21"
rustls-native-certs = "0.6"
uuid = { version = "1", features = ["v4"] }
zeroize = "1"
