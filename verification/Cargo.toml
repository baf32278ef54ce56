[package]
name = "deuter"
version = "0.1.0"
edition = "2021"
publish = false

[dependencies]
byteorder = "1"
mio = { version = "1", features = ["os-poll", "net"] }
