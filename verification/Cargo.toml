[package]
name = "mc_protocol"
version = "0.1.0"
edition = "2021"
publish = false

[dependencies]
flate2 = "1"
tokio = { version = "1", features = ["net", "io-util", "rt-multi-thread", "macros"] }
