[package]
name = "reader_map"
version = "0.1.0"
edition = "2021"
publish = false

[dependencies]
chrono = { version = "0.4", default-features = false, features = ["std"] }
chrono-tz = "0.8"
proptest = "1"
rust_decimal = "1"
serde = { version = "1", features = ["derive"] }
serde_json = "1"
vec1 = "1"
