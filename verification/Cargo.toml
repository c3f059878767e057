[package]
name = "actix_web_flash_messages"
version = "0.1.0"
edition = "2021"
publish = false

[dependencies]
actix-web = { version = "*", features = ["secure-cookies"] }
actix-session = "*"
percent-encoding = "*"
serde = { version = "*", features = ["derive"] }
serde_json = "*"
thiserror = "*"
anyhow = "*"
time = "*"
tokio = { version = "*", features = ["rt"] }
