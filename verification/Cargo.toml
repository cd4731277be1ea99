[package]
name = "zkwire"
version = "0.1.0"
edition = "2021"
publish = false

[dependencies]
failure = "0.1"
tokio = { version = "1", features = ["rt", "rt-multi-thread", "net", "io-util", "sync", "macros", "time"] }
