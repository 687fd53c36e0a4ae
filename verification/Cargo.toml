[package]
name = "snowflake_sim"
version = "0.1.0"
edition = "2021"
publish = false

[dependencies]
oorandom = "11"
base64 = "0.13"
bincode = "1"
flate2 = "1"
serde = { version = "1", features = ["derive"] }
rustc_apfloat = "0.2"
wasm-bindgen = "0.2"
js-sys = "0.3"
