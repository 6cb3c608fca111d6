[package]
name = "zaffre"
version = "0.1.0"
edition = "2021"
publish = false

[dependencies]
num = "0.4"
smallvec = "1"
bit-vec = "0.6"
tiny-skia = "0.11"
ash = "0.38"
