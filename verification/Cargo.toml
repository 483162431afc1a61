[package]
name = "cascading_timers"
version = "0.1.0"
edition = "2021"
publish = false

[dependencies]
image = { version = "=0.25.10", default-features = false, features = ["ico", "png"] }
rand = "=0.9.5"
configparser = "3"
