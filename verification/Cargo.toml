[package]
name = "master_registry"
version = "0.1.0"
edition = "2021"
publish = false

[dependencies]
actix-web = { version = "4", default-features = false, features = ["macros"] }
actix-cors = "0.7"
awc = { version = "3", default-features = false }
env_logger = "0.11"
serde = { version = "1", features = ["derive"] }
