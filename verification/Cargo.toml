[package]
name = "takeout_fixer"
version = "0.1.0"
edition = "2021"
publish = false

[dependencies]
serde_json = "=1.0.151"
chrono = "=0.4.45"
tokio = { version = "=1.53.2", features = ["rt", "rt-multi-thread", "fs", "io-util", "time", "macros"] }
tokio-tar = "=0.3.1"
async-compression = { version = "=0.4.50", features = ["tokio", "gzip"] }
futures = "=0.3.34"
gufo-exif = "=0.5.0"
gufo-jpeg = "=0.5.1"
gufo-common = "=2.0.0"
