[package]
name = "vizia_glutin"
version = "0.1.0"
edition = "2021"
publish = false

[dependencies]
femtovg = "=0.27.0"
glutin = "=0.28.0"
