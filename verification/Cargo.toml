[package]
name = "rust_gallery"
version = "0.1.0"
edition = "2021"
publish = false

[dependencies]
sha2 = "*"
image = "*"
moka = { version = "*", features = ["sync"] }
chrono = "*"
walkdir = "*"
