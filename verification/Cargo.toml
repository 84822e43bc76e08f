[package]
name = "rblint"
version = "0.1.0"
edition = "2021"
publish = false

[dependencies]
bincode = "1"
colored = "2"
lib-ruby-parser = "4"
serde = { version = "1", features = ["derive"] }
serde_json = "1"
toml = "0.8"
xxhash-rust = { version = "0.8", features = ["xxh3"] }
