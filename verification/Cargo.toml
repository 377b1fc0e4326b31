[package]
name = "dct_image_compression"
version = "0.1.0"
edition = "2021"
publish = false

[dependencies]
ndarray = "0.16"
image = { version = "0.25", default-features = false, features = ["png", "jpeg", "gif", "bmp"] }
