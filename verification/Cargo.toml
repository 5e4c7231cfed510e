[package]
name = "liboverviewer"
version = "0.1.0"
edition = "2021"
publish = false

[dependencies]
flate2 = "=1.1.10"
image = { version = "=0.25.10", default-features = false, features = ["png"] }
lru_time_cache = "=0.11.11"
