[package]
name = "tectonic_wasm"
version = "0.1.0"
edition = "2021"
publish = false

[dependencies]
siphasher = "1"
sha2 = "0.10"
base64 = "0.22"
serde = { version = "1", features = ["derive"] }
serde_json = "1"
bincode = "1"
wasm-bindgen = "0.2"
js-sys = "0.3"
web-sys = { version = "0.3", features = ["console", "Window", "Performance"] }
serde-wasm-bindgen = "0.6"
console_error_panic_hook = "0.1"
