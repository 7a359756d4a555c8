[package]
name = "plow_logic"
version = "0.1.0"
edition = "2021"
publish = false

[dependencies]
xxhash-rust = { version = "*", features = ["xxh3"] }
colored = "*"
serde = { version = "*", features = ["derive"] }
serde_json = "*"
toml = "*"
rustc-hash = "*"
indicatif = "*"
