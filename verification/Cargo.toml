[package]
name = "petalo"
version = "0.1.0"
edition = "2021"
publish = false

[dependencies]
serde = { version = "1", features = ["derive"] }
toml = "*"
clap = { version = "4", features = ["derive"] }
