[package]
name = "pdfmcr"
version = "0.1.0"
edition = "2021"
publish = false

[dependencies]
sha3 = "0.10"
serde = { version = "1", features = ["derive"] }
ciborium = "0.2"
toml = "0.8"
clap = { version = "4", features = ["derive"] }
