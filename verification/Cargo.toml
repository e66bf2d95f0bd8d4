[package]
name = "order_service"
version = "0.1.0"
edition = "2021"
publish = false

[dependencies]
axum = "*"
axum-server = "*"
clap = { version = "*", features = ["derive", "env"] }
dotenvy = "*"
log = "*"
log4rs = "*"
serde = { version = "*", features = ["derive"] }
serde_json = "*"
tokio = { version = "*", features = ["full"] }
tokio-postgres = "*"
