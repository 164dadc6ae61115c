[package]
name = "uv_resolver"
version = "0.1.0"
edition = "2021"
publish = false

[dependencies]
pubgrub = "*"
tokio = { version = "*", features = ["sync"] }
tracing = "*"
itertools = "*"
