[package]
name = "zoxide_sessions"
version = "0.1.0"
edition = "2021"
publish = false

[dependencies]
fuzzy-matcher = "*"
humantime = "*"
uuid = { version = "*", features = ["v4"] }
zellij-tile = "*"
