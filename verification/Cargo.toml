[package]
name = "l_extract"
version = "1.0.0"
edition = "2021"
publish = false

[dependencies]
regex = "1"
rayon = "1"
serde = { version = "1", features = ["derive"] }
serde_json = "1"
actix-web = { version = "4", default-features = false, features = ["macros", "compress-gzip"] }
tracing-subscriber = "0.3"
wasm-bindgen = "0.2"
serde-wasm-bindgen = "0.6"
