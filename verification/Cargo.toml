[package]
name = "rascii"
version = "0.1.0"
edition = "2021"
publish = false

[dependencies]
image = "*"
rusttype = "*"
rayon = "*"
clap = { version = "*", features = ["derive"] }
colored = "*"
env_logger = "*"
log = "*"
figlet-rs = "*"
