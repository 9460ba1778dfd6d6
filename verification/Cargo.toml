[package]
name = "doom_launcher"
version = "0.1.0"
edition = "2021"
publish = false

[dependencies]
log = "=0.4.34"
serde_json = "=1.0.154"
tauri = { version = "2", default-features = false }
