[package]
name = "asset_parsers"
version = "0.1.0"
edition = "2021"
publish = false

[dependencies]
base64 = "=0.22.1"
serde = { version = "=1.0.229", features = ["derive"] }
serde_json = "=1.0.154"
image = { version = "=0.25.10", default-features = false, features = ["png"] }
image_dds = { version = "=0.7.2", default-features = false, features = ["ddsfile", "image"] }
