[package]
name = "message-io"
version = "0.1.0"
edition = "2021"
publish = false

[dependencies]
crossbeam = "0.8"
log = "0.4"
mio = { version = "0.7", features = ["os-poll", "tcp", "udp"] }
net2 = "0.2"
tungstenite = { version = "0.13", default-features = false }
