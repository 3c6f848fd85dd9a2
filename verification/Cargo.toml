[package]
name = "webext_sync"
version = "0.1.0"
edition = "2021"
publish = false

[dependencies]
log = "=0.4.34"
rusqlite = { version = "=0.41.0", features = ["limits"] }
serde = { version = "=1.0.229", features = ["derive"] }
serde_json = "=1.0.154"
