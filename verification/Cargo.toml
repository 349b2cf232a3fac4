[package]
name = "renamer"
version = "0.1.0"
edition = "2021"
publish = false

[dependencies]
regex = "*"
clap = { version = "*", features = ["derive"] }
serde = { version = "*", features = ["derive"] }
toml = "*"
anyhow = "*"
log = "*"
simplelog = "*"
walkdir = "*"

[dev-dependencies]
rayon = "*"
