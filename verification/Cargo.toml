[package]
name = "omaboy_core"
version = "0.4.0"
edition = "2021"
publish = false

[dependencies]
flate2 = "1"
