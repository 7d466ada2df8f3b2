[package]
name = "orm_separate"
version = "0.1.0"
edition = "2021"
publish = false

[dependencies]
anyhow = "1"
clap = { version = "4", features = ["derive"] }
image = "0.24"
rayon = "1"
regex = "1"
serde = { version = "1", features = ["derive"] }
toml = "0.8"
walkdir = "2"
