[package]
name = "qs_ui"
version = "0.1.0"
edition = "2021"
publish = false

[dependencies]
accesskit = "*"
serde = { version = "1", features = ["derive"] }

[dev-dependencies]
serde_json = "1"
