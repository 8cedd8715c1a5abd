[package]
name = "pentaract"
version = "0.1.0"
edition = "2021"
publish = false

[dependencies]
axum = "0.6"
mime_guess = "2"
reqwest = { version = "0.11", default-features = false, features = ["multipart"] }
tokio-util = "0.7"
tracing = "0.1"
uuid = "1"
