[package]
name = "ros"
version = "0.1.0"
edition = "2021"
publish = false

[dependencies]
bootloader = "0.9"
x86_64 = { version = "0.14", default-features = false, features = ["instructions"] }
