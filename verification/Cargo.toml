[package]
name = "mandelbrot"
version = "0.1.0"
edition = "2021"
publish = false

[dependencies]
crossbeam = "0.8"
image = { version = "0.13.0", default-features = false, features = ["png_codec"] }
num = "0.4"
