[package]
name = "lungyam"
version = "0.1.0"
edition = "2021"
publish = false

[dependencies]
http = "1"
getrandom = "0.3"
serde = { version = "1", features = ["derive"] }
serde_yaml = "0.9"
thiserror = "*"
log = "*"
env_logger = "*"
clap = { version = "4", features = ["derive"] }
axum = "*"
tokio = { version = "1", features = ["full"] }
askama = "*"
async-trait = "*"
bytes = "1"
pingora = { version = "*", features = ["lb"] }
