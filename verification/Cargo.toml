[package]
name = "starstuff_types"
version = "0.1.0"
edition = "2021"
publish = false

[dependencies]
auto_ops = "0.3"
chrono = "0.4"
flate2 = "1"
reqwest = { version = "0.11", features = ["blocking"] }
unicode-segmentation = "1"

[dev-dependencies]
nom = "7"
