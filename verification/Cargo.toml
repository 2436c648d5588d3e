[package]
name = "android_battery_optimization"
version = "0.1.0"
edition = "2021"
publish = false

[dependencies]
serde = { version = "1", features = ["derive"] }
thiserror = "*"
tauri = { version = "2", default-features = false }
