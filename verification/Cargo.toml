[package]
name = "peak_vista"
version = "0.1.0"
edition = "2021"
publish = false

[dependencies]
glam = "0.24"
image = { version = "0.24", default-features = false, features = ["png"] }
wasm-bindgen = "0.2"
