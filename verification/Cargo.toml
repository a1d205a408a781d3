[package]
name = "mini_hosts"
version = "0.1.0"
edition = "2021"
publish = false

[dependencies]
chrono = { version = "=0.4.45", default-features = false, features = ["clock"] }
uuid = { version = "=1.29.0", features = ["v4", "serde"] }
serde = { version = "=1.0.229", features = ["derive"] }
serde_json = "=1.0.154"
dirs = "=7.0.0"
lazy_static = "=1.5.1"
tauri = { version = "=2.12.5", default-features = false, features = ["wry"] }
window-vibrancy = "=0.8.1"
