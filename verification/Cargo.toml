[package]
name = "fractal_lands"
version = "0.1.0"
edition = "2021"
publish = false
