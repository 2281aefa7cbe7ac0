[package]
name = "css_calc"
version = "0.1.0"
edition = "2021"
publish = false

[dependencies]
bumpalo = { version = "3", features = ["collections"] }
serde = { version = "1", features = ["derive"] }
