[package]
name = "voy_search"
version = "0.1.0"
edition = "2021"
publish = false

[dependencies]
anyhow = "1"
js-sys = "0.3"
kiddo = { version = "2", features = ["serialize"] }
serde = { version = "1", features = ["derive"] }
serde_json = "1"
tsify = "0.4"
wasm-bindgen = "0.2"
