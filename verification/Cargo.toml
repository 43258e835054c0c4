[package]
name = "rustfuzz"
version = "3.2.0"
edition = "2021"
publish = false

[dependencies]
clap = "4"
csv = "1"
futures = "0.3"
indicatif = "0.17"
rand = "0.8"
regex = "1"
reqwest = "0.11"
serde = { version = "1", features = ["derive"] }
serde_json = "1"
tokio = { version = "1", features = ["full"] }
toml = "0.8"
url = "2"
