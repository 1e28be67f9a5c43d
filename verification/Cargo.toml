[package]
name = "entity_sync"
version = "0.1.0"
edition = "2021"
publish = false

[dependencies]
rand = "0.8"
getrandom = "0.2"
serde = { version = "1", features = ["derive"] }
serde_json = "1"
thiserror = "1"
