[package]
name = "kvadminer"
version = "0.1.0"
edition = "2021"
publish = false

[dependencies]
redis = { version = "0.25", default-features = false }
uuid = { version = "1", features = ["v4"] }
actix-web = { version = "4", default-features = false, features = ["macros", "cookies"] }
actix-files = "0.6"
tokio = { version = "1", features = ["rt", "macros", "sync", "time"] }
serde = { version = "1", features = ["derive"] }
log = "0.4"
env_logger = { version = "0.11", default-features = false }
