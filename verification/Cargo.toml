[package]
name = "tjipe_showcase"
version = "0.1.0"
edition = "2021"
publish = false

[dependencies]
serde = { version = "1", features = ["derive"] }
serde_json = { version = "1", features = ["preserve_order"] }
url = "2"
tauri = { version = "2", default-features = false, features = ["wry"] }
