[package]
name = "bgit"
version = "0.1.0"
edition = "2021"
publish = false

[dependencies]
git2 = "*"
dialoguer = "*"
pathdiff = "*"
camino = "*"
anyhow = "*"
clap = { version = "*", features = ["derive"] }
