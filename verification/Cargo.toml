[package]
name = "nocoin"
version = "0.1.0"
edition = "2021"
publish = false

[dependencies]
rsa = "0.6"
sha2 = "0.10"
rand = "0.8"
serde = { version = "1", features = ["derive"] }
serde_json = "1"
tokio = { version = "1", features = ["macros", "rt-multi-thread", "sync", "time"] }
actix-web = "4"
reqwest = { version = "0.11", default-features = false, features = ["json"] }
futures = "0.3"
log = "0.4"
env_logger = "0.10"
anyhow = "1"
