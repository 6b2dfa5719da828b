[package]
name = "wcr_viz"
version = "0.1.0"
edition = "2021"
publish = false

[dependencies]
realfft = "*"
num-complex = "*"
serde = { version = "*", features = ["derive"] }
toml = "*"
