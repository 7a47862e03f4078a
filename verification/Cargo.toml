[package]
name = "cblog"
version = "0.1.0"
edition = "2021"
publish = false

[dependencies]
anyhow = "=1.0.104"
argon2 = { version = "=0.5.3", features = ["std"] }
chrono = "=0.4.45"
clap = { version = "=4.6.7", features = ["derive"] }
gray_matter = "=0.3.2"
hmac = "=0.12.1"
image = { version = "0.25", default-features = false, features = ["gif", "jpeg", "png", "webp"] }
minijinja = "=2.24.0"
pulldown-cmark = "=0.13.6"
regex = "=1.13.1"
reqwest = { version = "=0.12.28", default-features = false }
serde = { version = "=1.0.229", features = ["derive"] }
serde_json = "=1.0.154"
sha2 = "=0.10.9"
thiserror = "=2.0.21"
toml = "=1.1.8"
tracing = "=0.1.44"
tracing-subscriber = "=0.3.23"
ulid = "=1.2.1"
