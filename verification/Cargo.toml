[package]
name = "generic_space"
version = "0.1.0"
edition = "2021"
publish = false

[dependencies]
js-sys = "0.3"
num-traits = "0.2"
rand = "0.6"
wasm-bindgen = "0.2"
