[package]
name = "move_web_compile"
version = "0.1.0"
edition = "2021"
publish = false

[dependencies]
base64 = "*"
actix-web = "*"
actix-cors = "*"
actix-files = "*"
anyhow = "*"
chrono = "*"
clap = { version = "*", features = ["derive"] }
serde = { version = "*", features = ["derive"] }
tokio = { version = "*", features = ["full"] }
