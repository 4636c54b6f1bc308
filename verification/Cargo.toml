[package]
name = "mandelbrot"
version = "0.1.0"
edition = "2021"
publish = false

[dependencies]
crossbeam = "*"
num_cpus = "*"
num = "*"
image = { version = "*", default-features = false, features = ["png"] }
