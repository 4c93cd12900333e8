[package]
name = "recap"
version = "0.1.0"
edition = "2021"
publish = false

[dependencies]
base64 = "0.22"
chrono = "0.4"
image = { version = "0.25", default-features = false, features = ["png"] }
serde = { version = "1", features = ["derive"] }
serde_json = "1"
objc2 = "0.6"
objc2-foundation = "0.3"
objc2-vision = "0.3"
objc2-core-graphics = "0.3"
objc2-core-foundation = "0.3"
