[package]
name = "chatlog"
version = "0.1.0"
edition = "2021"
publish = false

[dependencies]
ahash = "*"
chrono = { version = "*", default-features = false, features = ["std"] }
clap = { version = "*", features = ["derive"] }
memchr = "*"
simd-json = "*"
