[package]
name = "aerospace-helper"
version = "0.1.0"
edition = "2021"
publish = false

[dependencies]
toml = "0.8"
serde = { version = "1", features = ["derive"] }
serde_json = "1"
libc = "0.2"
notify = "8"
block2 = "0.6"
objc2-app-kit = "0.3"
objc2-foundation = "0.3"
