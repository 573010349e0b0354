[package]
name = "allay"
version = "0.1.0"
edition = "2021"
publish = false

[dependencies]
pulldown-cmark = { version = "*", default-features = false, features = ["html"] }
regex = "1"
serde = { version = "1", features = ["derive"] }
serde_json = "1"
serde_yaml = "*"
toml = "*"
thiserror = "*"
clap = { version = "4", features = ["derive"] }
anyhow = "1"
tracing = "0.1"

[dev-dependencies]
tempfile = "3"
