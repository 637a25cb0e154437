[package]
name = "libra"
version = "0.1.0"
edition = "2021"
publish = false

[dependencies]
serenity = "0.8"
rand = { version = "0.7", features = ["small_rng"] }
unicode-segmentation = "1"
serde = "1"
serde_json = "1"
log = "0.4"
env_logger = "0.7"
kankyo = "0.3"
