[package]
name = "lolbench"
version = "0.1.0"
edition = "2021"
publish = false

[dependencies]
sha2 = "*"
slug = "*"
chrono = "*"
serde = { version = "*", features = ["derive"] }
serde_json = "*"
walkdir = "*"
signal-hook = "*"
libc = "*"
