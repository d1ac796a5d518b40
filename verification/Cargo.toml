[package]
name = "decart"
version = "0.1.0"
edition = "2021"
publish = false

[dependencies]
gif = "*"
octopt = "*"
serde = { version = "*", features = ["derive"] }
serde_json = "*"
thiserror = "*"
