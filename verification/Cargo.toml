[package]
name = "compressed_collections"
version = "0.1.0"
edition = "2021"
publish = false

[dependencies]
brotli = "*"
either = "1"
postcard = { version = "1", default-features = false, features = ["use-std"] }
serde = { version = "1", features = ["derive"] }
