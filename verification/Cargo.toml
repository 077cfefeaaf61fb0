[package]
name = "hexspin"
version = "0.1.0"
edition = "2021"
publish = false

[dependencies]
pixels = "*"
winit = { version = "0.30", default-features = false, features = ["x11", "rwh_06"] }
