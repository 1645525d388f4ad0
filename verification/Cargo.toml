[package]
name = "common"
version = "0.1.0"
edition = "2021"
publish = false

[dependencies]
urlencoding = "2"
tonic = { version = "*", default-features = false }
axum = { version = "*", default-features = false }
