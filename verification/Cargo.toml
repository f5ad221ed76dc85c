[package]
name = "blog-generator"
version = "0.1.0"
edition = "2021"
publish = false

[dependencies]
anyhow = "=1.0.104"
chrono = { version = "=0.4.45", features = ["serde"] }
pulldown-cmark = "=0.13.6"
serde = { version = "=1.0.229", features = ["derive"] }
serde_yaml = "=0.9.34"
tera = "=1.20.1"
toml = "=1.2.1"
walkdir = "=2.5.0"
