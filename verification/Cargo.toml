[package]
name = "listload"
version = "0.1.0"
edition = "2021"
publish = false

[dependencies]
anyhow = "*"
clap = { version = "*", features = ["derive"] }
directories = "*"
downloader = "*"
fs4 = "*"
human-panic = "*"
rand = "*"
serde = { version = "*", features = ["derive"] }
toml = "*"
url = "*"
