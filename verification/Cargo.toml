[package]
name = "plc_secure_checker"
version = "0.1.0"
edition = "2021"
publish = false

[dependencies]
quick-xml = "0.36"
serde = { version = "1", features = ["derive"] }
serde_json = "1"
clap = { version = "4", features = ["derive"] }
wasm-bindgen = "0.2"
