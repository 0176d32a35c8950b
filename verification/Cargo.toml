[package]
name = "axum_oas"
version = "0.1.0"
edition = "2021"
publish = false

[dependencies]
axum = "0.8"
schemars = "1"
serde = { version = "1", features = ["derive"] }
serde_json = "1"
