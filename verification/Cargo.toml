[package]
name = "single_module_fuzzer"
version = "0.1.0"
edition = "2021"
publish = false

[dependencies]
arbitrary = "1"

[dev-dependencies]
rand = { version = "0.8", features = ["small_rng"] }
wasm-smith = "*"
wasm-encoder = "*"
wasmparser = "*"
