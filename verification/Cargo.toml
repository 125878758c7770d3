[package]
name = "turing_patterns"
version = "0.1.0"
edition = "2021"
publish = false

[dependencies]
ndarray = "0.15"
ndarray-rand = "0.14"
ndarray-ndimage = "0.4"
rand = "0.8"
image = { version = "0.24", default-features = false, features = ["png", "jpeg"] }
