[package]
name = "animbg"
version = "0.1.0"
edition = "2021"
publish = false

[dependencies]
anyhow = "*"
clap = { version = "*", features = ["derive"] }
color-eyre = "*"
dirs = "*"
env_logger = "*"
image = "*"
log = "*"
ratatui = "*"
signal-hook = "*"
x11 = { version = "*", features = ["xlib"] }
