[package]
name = "dockertest"
version = "0.1.0"
edition = "2021"
publish = false

[dependencies]
rand = "0.8"
bollard = "*"
tokio = { version = "1", features = ["full"] }
futures = "0.3"
tracing = "0.1"
tracing-futures = "0.2"
