[package]
name = "ksearch"
version = "0.1.0"
edition = "2021"
publish = false

[dependencies]
clap = "*"
rayon = "*"
serde = { version = "*", features = ["derive"] }
serde_json = "*"
toml = "*"
