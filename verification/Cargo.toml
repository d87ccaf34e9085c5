[package]
name = "julianday"
version = "1.2.0"
edition = "2021"
publish = false

[dependencies]
chrono = { version = "0.4", default-features = false }
