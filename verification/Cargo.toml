[package]
name = "heic2jpg"
version = "0.1.0"
edition = "2021"
publish = false

[dependencies]
image = { version = "*", default-features = false, features = ["jpeg"] }
libheif-rs = "*"
zip = { version = "*", default-features = false, features = ["deflate"] }
