[package]
name = "ndarray_to_img"
version = "0.1.0"
edition = "2021"
publish = false

[dependencies]
ndarray = "0.15"
image = "0.23"
libc = "0.2"
