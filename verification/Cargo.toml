[package]
name = "junk_spider"
version = "0.1.0"
edition = "2021"
publish = false

[dependencies]
anyhow = "*"
base64 = "*"
bimap = "*"
chrono = "*"
clap = { version = "*", features = ["derive"] }
deadpool-postgres = "*"
dotenv = "*"
futures = "*"
hmac = "*"
reqwest = { version = "*", default-features = false, features = ["json"] }
serde = { version = "*", features = ["derive"] }
serde_json = "*"
sha2 = "*"
tokio = { version = "*", features = ["rt-multi-thread", "macros"] }
tokio-postgres = "*"
