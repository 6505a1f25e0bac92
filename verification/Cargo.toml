[package]
name = "chess_algorithms"
version = "0.1.0"
edition = "2021"
publish = false

[dependencies]
shakmaty = "0.21"
rand = { version = "0.8", features = ["small_rng"] }
instant = "0.1"
serde = { version = "1", features = ["derive"] }
wasm-bindgen = { version = "0.2", features = ["serde-serialize"] }
