[package]
name = "tab_text"
version = "0.1.0"
edition = "2021"
publish = false

[dependencies]
url = "2"
wasm-bindgen = "0.2"
console_error_panic_hook = "0.1"
