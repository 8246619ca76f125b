[package]
name = "clink"
version = "0.1.0"
edition = "2021"
publish = false

[dependencies]
url = "*"
linkify = "*"
chrono = "0.4"
rand = "0.8"
serde = { version = "*", features = ["derive"] }
toml = "*"
confy = "*"
dirs-next = "*"
rustop = "*"
copypasta = "*"
