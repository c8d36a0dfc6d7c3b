[package]
name = "cobble"
version = "0.1.0"
edition = "2021"
publish = false

[dependencies]
flate2 = "1"
sha1 = "0.10"
tokio = { version = "1", features = ["net", "io-util", "rt", "macros", "sync", "time"] }
image = { version = "0.24", default-features = false, features = ["png"] }
zip = { version = "0.6", default-features = false, features = ["deflate"] }
serde = { version = "1", features = ["derive"] }
serde_json = "1"
reqwest = { version = "0.12", default-features = false, features = ["json", "rustls-tls"] }
dirs = "5"
log = "0.4"
env_logger = "0.11"
glam = "0.29"
thiserror = "1"
