[package]
name = "nexterm-client"
version = "0.1.0"
edition = "2021"
publish = false

[dependencies]
fuzzy-matcher = "=0.3.7"
serde = { version = "=1.0.229", features = ["derive"] }
serde_json = "=1.0.154"
libc = "=0.2.191"
zeroize = "=1.9.1"
lru = "=0.19.0"
notify-rust = "=4.18.2"
cosmic-text = "=0.19.0"
sys-locale = "=0.3.2"
wgpu = "=30.0.1"
bytemuck = { version = "=1.25.2", features = ["derive"] }
winit = "*"
accesskit = "*"
