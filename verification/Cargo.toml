[package]
name = "stark_boundary"
version = "0.1.0"
edition = "2021"
publish = false

[dependencies]
bincode = "=1.3.3"
serde = { version = "*", features = ["derive"] }
wasm-bindgen = "*"
console_error_panic_hook = "*"
