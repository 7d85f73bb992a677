[package]
name = "match_game"
version = "0.1.0"
edition = "2021"
publish = false

[dependencies]
base64 = "0.13"
image = { version = "0.23", default-features = false, features = ["png", "gif"] }
rand = "0.8"
ulid = "1"
