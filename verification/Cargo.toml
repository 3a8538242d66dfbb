[package]
name = "sketchmotion"
version = "0.1.0"
edition = "2021"
publish = false

[dependencies]
serde = { version = "1", features = ["derive"] }
ciborium = "0.2"
image = { version = "0.25", default-features = false, features = ["png", "jpeg"] }
dirs = "5"
