[package]
name = "cli_switch"
version = "0.1.0"
edition = "2021"
publish = false

[dependencies]
axum = "0.8"
tokio = { version = "1", features = ["rt-multi-thread", "sync", "net", "macros"] }
tower-http = { version = "0.6", features = ["fs"] }
serde = { version = "1", features = ["derive"] }
serde_json = "1"
async-stream = "0.3"
log = "0.4"
tauri = { version = "2", default-features = false, features = ["test"] }
