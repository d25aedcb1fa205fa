[package]
name = "browser"
version = "0.1.0"
edition = "2021"
publish = false

[dependencies]
fixedbitset = "*"
url = "2"
percent-encoding = "2"
serde_json = "1"
anyhow = "1"
ab_glyph = "0.2"
image = { version = "0.25", default-features = false, features = ["png", "jpeg", "gif", "webp"] }
resvg = "*"
reqwest = { version = "0.12", default-features = false, features = ["cookies", "rustls-tls"] }
tokio = { version = "1", features = ["rt", "time", "macros", "sync"] }
winit = "0.29"
softbuffer = "0.4"
raw-window-handle = "0.6"
