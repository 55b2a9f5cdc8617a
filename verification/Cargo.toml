[package]
name = "tailspin"
version = "0.1.0"
edition = "2021"
publish = false

[dependencies]
tokio = { version = "*", features = ["sync", "io-util", "io-std", "time", "rt"] }
nu-ansi-term = "*"
async-trait = "*"
