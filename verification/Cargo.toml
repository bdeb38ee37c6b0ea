[package]
name = "hal"
version = "0.1.0"
edition = "2021"
publish = false

[dependencies]
actix-http = { version = "3", default-features = false }
serde = { version = "1", features = ["derive"] }

[dev-dependencies]
serde_json = "1"
