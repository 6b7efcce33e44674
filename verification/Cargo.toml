[package]
name = "avif-serialize"
version = "0.8.0"
edition = "2021"
publish = false

[dependencies]
arrayvec = "0.7"

[dev-dependencies]
avif-parse = "*"
mp4parse = "*"
zenavif-parse = "*"
