[package]
name = "light_request"
version = "0.1.0"
edition = "2021"
publish = false

[dependencies]
bytes = "*"
ethereum-types = "*"
