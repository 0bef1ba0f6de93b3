[package]
name = "wasm_mdn"
version = "0.1.0"
edition = "2021"
publish = false

[dependencies]
wasm-bindgen = "0.2"
js-sys = "0.3"
web-sys = { version = "0.3", features = ["Window", "Performance", "console"] }
console_error_panic_hook = "0.1"
