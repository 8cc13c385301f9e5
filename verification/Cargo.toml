[package]
name = "adaa"
version = "0.1.0"
edition = "2021"
publish = false

[dependencies]
polylog = "=2.6.0"
