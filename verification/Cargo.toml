[package]
name = "ptiff_core"
version = "0.1.0"
edition = "2021"
publish = false

[dependencies]
flate2 = "=1.1.10"
jpeg-decoder = "=0.3.2"
jpeg-encoder = "=0.7.1"
zstd = "=0.14.3"
serde = { version = "=1.0.229", features = ["derive"] }
serde_json = "=1.0.154"
quick-xml = "=0.42.0"
rayon = "=1.12.0"

[dev-dependencies]
tiff = "*"
