[package]
name = "ripunzip"
version = "0.1.0"
edition = "2021"
publish = false

[dependencies]
anyhow = "*"
clap = { version = "*", features = ["derive"] }
env_logger = "*"
indicatif = "*"
zip = { version = "*", default-features = false, features = ["deflate"] }
ureq = { version = "*", default-features = false }
tempfile = "*"
walkdir = "*"
