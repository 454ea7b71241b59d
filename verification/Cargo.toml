[package]
name = "kelvin_submit"
version = "0.1.0"
edition = "2021"
publish = false

[dependencies]
anyhow = "1"
cargo_metadata = "*"
clap = { version = "4", features = ["derive", "env"] }
env_logger = "0.11"
ignore = "0.4"
log = "0.4"
open = "5"
reqwest = { version = "0.12", features = ["blocking", "multipart", "json"] }
serde = { version = "1", features = ["derive"] }
zip = { version = "2", default-features = false, features = ["deflate"] }
