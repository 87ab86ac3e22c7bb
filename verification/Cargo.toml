[package]
name = "sled_explorer"
version = "0.1.0"
edition = "2021"
publish = false

[dependencies]
sled = "=0.34.7"
uuid = { version = "=1.29.0", features = ["v4"] }
chrono = { version = "=0.4.45", features = ["serde"] }
csv = "=1.4.0"
quick-xml = { version = "=0.42.0", features = ["serialize"] }
serde = { version = "=1.0.229", features = ["derive"] }
serde_json = "=1.0.154"
yaml-rust2 = "=0.13.0"
tauri = { version = "2", default-features = false }

[dev-dependencies]
tempfile = "=3.27.0"
