[package]
name = "simple_image_viewer"
version = "0.1.0"
edition = "2021"
publish = false

[dependencies]
natord = "=1.0.9"
sha2 = "=0.10.9"
base64 = "=0.21.7"
zip = { version = "=0.6.6", default-features = false, features = ["deflate"] }
notify = "=6.1.1"
rusqlite = { version = "=0.31.0", features = ["bundled"] }
image = { version = "=0.24.9", default-features = false, features = ["jpeg", "png", "gif", "bmp", "tiff", "webp"] }
tokio = { version = "=1.54.1", features = ["full"] }
serde = { version = "=1.0.229", features = ["derive"] }
serde_json = "=1.0.154"
sysinfo = "=0.30.13"
fs_extra = "=1.3.0"
anyhow = "=1.0.104"
reqwest = { version = "0.12", default-features = false, features = ["rustls-tls", "stream"] }
futures-util = "0.3"
