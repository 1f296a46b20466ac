[package]
name = "dynamic_diagram"
version = "0.1.0"
edition = "2021"
publish = false

[dependencies]
resvg = "*"
png = "*"
serde = { version = "1", features = ["derive"] }
serde_json = "1"
signal-hook = "*"
taffy = "*"
libc = "0.2"
