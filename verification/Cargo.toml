[package]
name = "const_base"
version = "0.2.0"
edition = "2021"
publish = false

[dependencies]
const_panic = { version = "=0.2.17", features = ["rust_1_64"] }

[dev-dependencies]
rand = { version = "=0.8.8", default-features = false, features = ["small_rng", "min_const_gen"] }
base64 = "=0.13.1"
data-encoding = "=2.11.1"
