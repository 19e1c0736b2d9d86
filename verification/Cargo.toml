[package]
name = "linc"
version = "0.1.0"
edition = "2021"
publish = false

[dependencies]
uuid = { version = "0.8", features = ["v4"] }
serde = { version = "1", features = ["derive"] }
yew = { version = "0.17", features = ["web_sys"] }
wasm-bindgen = "0.2"
itertools = "0.9"
log = "0.4"
