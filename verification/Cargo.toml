[package]
name = "csvdiff"
version = "0.1.0"
edition = "2021"
publish = false

[dependencies]
csv = "1"
similar = "2"
serde = { version = "1", features = ["derive"] }
serde_json = "1"
rayon = "1"
wasm-bindgen = "0.2"
js-sys = "0.3"
web-sys = { version = "0.3", features = ["console"] }
serde-wasm-bindgen = "0.6"
console_error_panic_hook = "0.1"
