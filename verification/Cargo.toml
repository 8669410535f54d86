[package]
name = "fitbit_steps"
version = "0.1.0"
edition = "2021"
publish = false

[dependencies]
base64 = "0.21"
bb8 = "0.8"
bb8-redis = "0.13"
chrono = "0.4"
dotenv = "0.15"
env_logger = "0.10"
futures-util = "0.3"
log = "0.4"
redis = { version = "0.23", features = ["tokio-comp"] }
reqwest = { version = "0.11", features = ["json"] }
serde = { version = "1", features = ["derive"] }
sqlx = { version = "0.6", default-features = false, features = ["runtime-tokio-rustls", "postgres", "chrono"] }
tokio = { version = "1", features = ["macros", "rt-multi-thread", "sync"] }
tokio-stream = "0.1"
ulid = "1"
