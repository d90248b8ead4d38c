[package]
name = "tar_light"
version = "0.1.0"
edition = "2021"
publish = false

[dependencies]
flate2 = "1.0"
libc = "0.2"
