[package]
name = "cartographers"
version = "0.1.0"
edition = "2021"
publish = false

[dependencies]
enum-map = "2"
serde_json = "1"
tungstenite = "0.19"
