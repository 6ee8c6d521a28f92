[package]
name = "thener"
version = "0.1.0"
edition = "2021"
publish = false

[dependencies]
path-absolutize = "*"
url = "*"
comrak = { version = "*", default-features = false }
clap = { version = "*", features = ["derive"] }
serde = { version = "*", features = ["derive"] }
serde_json = "*"
tempfile = "*"
fs_extra = "*"
defer-lite = "*"
anyhow = "*"
headless_chrome = "*"
