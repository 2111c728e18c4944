[package]
name = "weenotify"
version = "0.1.0"
edition = "2021"
publish = false

[dependencies]
async-global-executor = "*"
clap = "*"
config = "*"
futures = "*"
lapin = "*"
notify-rust = "*"
uuid = { version = "*", features = ["v4"] }
