[package]
name = "gb_save"
version = "0.1.0"
edition = "2021"
publish = false

[dependencies]
anyhow = "1"
clap = { version = "4", features = ["derive"] }
flate2 = "1"
js-sys = "0.3"
serde_json = "1"
thiserror = "1"
wasm-bindgen = "0.2"
