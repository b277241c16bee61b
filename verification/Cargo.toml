[package]
name = "herd"
version = "0.1.0"
edition = "2021"
publish = false

[dependencies]
anyhow = "*"
chrono = "*"
clap = { version = "*", features = ["derive"] }
dirs = "*"
rusqlite = { version = "*", features = ["bundled"] }
