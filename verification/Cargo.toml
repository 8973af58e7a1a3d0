[package]
name = "resonance"
version = "0.1.0"
edition = "2021"
publish = false

[dependencies]
sha2 = "0.10"
hex = "0.4"
clap = { version = "4", features = ["derive"] }
serde = { version = "1", features = ["derive"] }
serde_json = "1"
tokio = { version = "1", features = ["rt-multi-thread", "macros", "time"] }
async-nats = "*"
futures-util = "0.3"
wasm-bindgen = "0.2"
serde-wasm-bindgen = "0.6"
