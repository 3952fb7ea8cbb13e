[package]
name = "zed_websocket"
version = "0.1.0"
edition = "2021"
publish = false

[dependencies]
regex = "*"
serde_json = "*"
serde = { version = "*", features = ["derive"] }
actix = "*"
actix-web = "*"
actix-ws = "*"
futures = "*"
tokio = { version = "*", features = ["sync"] }
