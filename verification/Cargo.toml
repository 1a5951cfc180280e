[package]
name = "kitty_graphics"
version = "0.1.0"
edition = "2021"
publish = false

[dependencies]
base64 = "0.13"
flate2 = "1.0"
image = { version = "0.24", default-features = false, features = ["png"] }
log = "0.4"
