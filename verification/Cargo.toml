[package]
name = "asteroids"
version = "0.1.0"
edition = "2021"
publish = false

[dependencies]
js-sys = "=0.3.106"
rand = "=0.4.6"
wasm-bindgen = "=0.2.129"
web-sys = { version = "=0.3.106", features = ["Window", "Crypto", "Performance", "console"] }
