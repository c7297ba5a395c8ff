[package]
name = "notify_poll"
version = "0.1.0"
edition = "2021"
publish = false

[dependencies]
crossbeam-channel = "*"
file-id = "*"
flume = "*"
log = "0.4"
notify-types = "*"
walkdir = "2"
xxhash-rust = { version = "0.8", features = ["xxh3"] }

[dev-dependencies]
tempfile = "3"
