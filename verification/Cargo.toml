[package]
name = "flagrant"
version = "0.1.0"
edition = "2021"

[dependencies]
image = { version = "*", default-features = false, features = ["png"] }
