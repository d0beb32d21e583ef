[package]
name = "rusk"
version = "0.1.0"
edition = "2021"
publish = false

[dependencies]
libc = "0.2"
serde_json = "1"
tokio = { version = "1", features = ["rt-multi-thread", "macros", "io-std", "sync"] }
tower-lsp = "0.20"
wasm-bindgen = "0.2"
zed_extension_api = "*"
