[package]
name = "timelapse"
version = "0.1.0"
edition = "2021"
publish = false

[dependencies]
async-trait = "0.1"
image = { version = "0.25", default-features = false }
tokio = { version = "1", features = ["fs", "io-util", "macros", "process", "rt"] }
tokio-util = "0.7"
tracing = "0.1"
