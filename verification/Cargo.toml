[package]
name = "gesture_dtw"
version = "0.1.0"
edition = "2021"
publish = false

[dependencies]
cgmath = "*"
colored = "*"
csv = "*"
serde = { version = "*", features = ["derive"] }
