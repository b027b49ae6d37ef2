[package]
name = "sps30"
version = "0.1.0"
edition = "2021"
publish = false

[dependencies]
embedded-io-async = "*"
embedded-hal-async = "*"
