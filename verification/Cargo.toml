[package]
name = "pos_core"
version = "0.1.0"
edition = "2021"
publish = false

[dependencies]
argon2 = "0.5"
rand = "0.8"
rusqlite = { version = "*", features = ["bundled"] }
