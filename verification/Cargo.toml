[package]
name = "tedge_write"
version = "0.1.0"
edition = "2021"
publish = false

[dependencies]
anyhow = "*"
camino = "*"
clap = { version = "*", features = ["derive"] }
path-clean = "*"
uzers = "*"
