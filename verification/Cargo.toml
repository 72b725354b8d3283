[package]
name = "openslide-rs"
version = "0.1.0"
edition = "2021"
publish = false

[dependencies]
byteorder = "1"
image = { version = "0.24", default-features = false }
