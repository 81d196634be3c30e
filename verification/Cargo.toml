[package]
name = "arrow-ipc-stream"
version = "0.1.0"
edition = "2021"
publish = false

[dependencies]
arrow-array = { version = "*", default-features = false }
arrow-buffer = "*"
arrow-data = { version = "*", default-features = false }
arrow-schema = { version = "*", default-features = false }
bytes = "1"
