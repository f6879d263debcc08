[package]
name = "wordshape"
version = "0.1.0"
edition = "2021"
publish = false

[dependencies]
fontdue = "*"
rand = "*"
clap = { version = "*", features = ["derive"] }
env_logger = "*"
log = "*"
svg = "*"
image = { version = "*", default-features = false, features = ["png"] }
