[package]
name = "topbot"
version = "0.1.0"
edition = "2021"
publish = false

[dependencies]
chrono = "*"
dotenv = "*"
env_logger = "*"
futures = "*"
log = "*"
mongodb = "*"
serde = { version = "*", features = ["derive"] }
tgbot = "*"
tokio = { version = "*", features = ["full"] }
