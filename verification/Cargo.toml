[package]
name = "third_party_notices"
version = "0.1.0"
edition = "2021"
publish = false

[dependencies]
spdx = "*"
license = "*"
html-escape = "*"
anyhow = "*"
cargo_metadata = "*"
clap = { version = "*", features = ["derive"] }
env_logger = "*"
log = "*"
serde = { version = "*", features = ["derive"] }
serde_json = "*"
toml = "*"
