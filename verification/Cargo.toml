[package]
name = "ephemeral_relay"
version = "0.1.0"
edition = "2021"
publish = false

[dependencies]
hex = "0.4"
html-escape = "0.2"
rand = "0.8"
rocket = { version = "0.5", features = ["json"] }
tokio = { version = "1", features = ["sync", "time", "net", "io-util", "fs", "macros", "rt-multi-thread"] }
zeroize = "1"
