[package]
name = "cobalt"
version = "0.1.0"
edition = "2021"
publish = false

[dependencies]
colored = "*"
serde = { version = "*", features = ["derive"] }
serde_derive = "*"
toml = "*"
walkdir = "*"
