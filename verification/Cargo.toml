[package]
name = "embassy-mqtt-lite"
version = "0.2.0"
edition = "2021"
publish = false

[dependencies]
embedded-io-async = "0.6"
