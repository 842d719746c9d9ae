[package]
name = "localmind_core"
version = "0.1.0"
edition = "2021"
publish = false

[dependencies]
serde_json = "1"
chrono = "0.4"
sys-locale = "0.3"
serde = { version = "1", features = ["derive"] }
