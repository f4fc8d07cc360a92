[package]
name = "tetris"
version = "0.1.0"
edition = "2021"
publish = false

[dependencies]
rand = "0.8"
web-time = "1"
serde = { version = "1", features = ["derive"] }
serde_json = "1"
async-std = "1"
dioxus = "0.5"
dioxus-logger = "0.5"
