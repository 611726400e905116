[package]
name = "pueued"
version = "0.1.0"
edition = "2021"
publish = false

[dependencies]
anyhow = "=1.0.104"
async-std = { version = "=1.13.2", features = ["attributes"] }
ctrlc = "=3.5.2"
serde = { version = "1", features = ["derive"] }
serde_json = "1"
simplelog = "=0.12.2"
structopt = "=0.3.26"
