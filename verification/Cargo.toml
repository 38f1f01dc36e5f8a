[package]
name = "fastpack"
version = "0.1.0"
edition = "2021"
publish = false

[dependencies]
rustc-hash = "=2.1.3"
image = { version = "=0.25.10", default-features = false, features = ["png", "jpeg", "bmp", "tga", "webp", "tiff", "gif"] }
oxipng = { version = "=10.2.1", default-features = false }
imagequant = { version = "=4.4.1", default-features = false }
png = "=0.18.1"
serde = { version = "=1.0.229", features = ["derive"] }
serde_json = { version = "=1.0.154", features = ["preserve_order"] }
toml = "=1.1.8"
walkdir = "=2.5.0"
anyhow = "=1.0.104"
rayon = "=1.12.0"
geo = "=0.33.1"
thiserror = "=2.0.21"
