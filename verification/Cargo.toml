[package]
name = "qedgen"
version = "0.1.0"
edition = "2021"
publish = false

[dependencies]
anyhow = "1"
regex = "1"
serde = { version = "1", features = ["derive"] }
sha2 = "0.10"
toml = "0.8"
