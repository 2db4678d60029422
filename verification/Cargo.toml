[package]
name = "dragonfly_client"
version = "0.1.0"
edition = "2021"
publish = false

[dependencies]
base64 = "=0.23.1"
serde_json = "=1.0.151"
serde = { version = "=1.0.229", features = ["derive"] }
reqwest = { version = "=0.12.28", default-features = false, features = ["blocking", "json", "cookies", "gzip", "rustls-tls"] }
flate2 = "=1.1.10"
tar = "=0.4.46"
zip = { version = "=8.6.0", default-features = false, features = ["deflate"] }
figment = { version = "=0.10.19", features = ["toml", "env"] }
yara = { version = "=0.32.0", default-features = false, features = ["vendored", "bundled-4_5_5", "module-hash", "ndebug"] }
