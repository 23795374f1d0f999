[package]
name = "mabd"
version = "0.1.0"
edition = "2021"
publish = false

[dependencies]
bevy = { version = "0.19", default-features = false, features = ["std", "multi_threaded"] }
physx = "*"
physx-sys = "*"
js-sys = "*"
wasm-bindgen = "*"
