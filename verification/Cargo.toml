[package]
name = "spread"
version = "0.1.0"
edition = "2021"
publish = false

[dependencies]
anyhow = "=1.0.104"
arrow-array = "=57.3.2"
arrow-cast = "=57.3.2"
arrow-schema = "=57.3.2"
calamine = "=0.38.0"
clap = { version = "=4.6.7", features = ["derive"] }
comfy-table = "=7.2.2"
csv = "=1.4.0"
formualizer-workbook = { version = "=0.13.0", default-features = false, features = ["csv", "json", "system-clock"] }
parquet = { version = "=57.3.2", default-features = false, features = ["arrow", "snap", "brotli", "flate2-zlib-rs", "lz4", "zstd"] }
quick-xml = "=0.42.0"
serde = { version = "=1.0.229", features = ["derive"] }
serde_json = "=1.0.154"
zip = { version = "=9.2.2", default-features = false, features = ["deflate"] }
