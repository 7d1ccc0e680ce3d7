[package]
name = "compu"
version = "1.0.0"
edition = "2021"
publish = false

[dependencies]
brotli = { version = "=9.0.0", features = ["portable-float"] }
bytes = "=1.12.1"
libz-sys = "=1.1.30"
zstd-sys = { version = "=2.1.2", features = ["experimental"] }

[dev-dependencies]
miniz_oxide = "=0.9.1"
