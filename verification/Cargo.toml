[package]
name = "hpack"
version = "0.1.0"
edition = "2021"
publish = false

[dependencies]
bytes = "1"
http = "1"
arbitrary = { version = "1", features = ["derive"] }
libfuzzer-sys = "0.4"
