[package]
name = "chat"
version = "0.1.0"
edition = "2021"
publish = false

[dependencies]
reqwest = { version = "=0.13.5", default-features = false }
rand = "=0.10.3"
oxipng = "=10.2.1"
serde = { version = "=1.0.229", features = ["derive"] }
serde_json = "=1.0.151"
tokio = { version = "=1.53.2", features = ["full"] }
tokio-postgres = "=0.7.18"
deadpool-postgres = "=0.14.2"
futures = "=0.3.34"
warp = { version = "=0.4.3", features = ["server", "websocket"] }
log = "=0.4.34"
pretty_env_logger = "=0.5.0"
headers = "=0.4.2"
jsonwebtoken = "=11.1.0"
form_urlencoded = "=1.2.2"
