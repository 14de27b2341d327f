[package]
name = "self_stream"
version = "0.1.0"
edition = "2021"
publish = false

[dependencies]
actix = "0.13"
color-eyre = "0.6"
eyre = "0.6"
futures-util = "0.3"
tokio = { version = "1", features = ["rt", "time", "macros"] }
tokio-stream = { version = "0.1", features = ["time"] }
