[package]
name = "gcode"
version = "0.1.0"
edition = "2021"
publish = false

[dependencies]
micromath = "=2.1.0"
embedded-io-async = "*"
