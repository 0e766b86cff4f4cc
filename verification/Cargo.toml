[package]
name = "log_rc"
version = "0.1.0"
edition = "2021"
publish = false

[dependencies]
chrono = "0.4"
filetime = "0.2"
log = "0.4"
serde = { version = "1", features = ["derive"] }
simplelog = "0.12"
time = { version = "0.3", features = ["local-offset"] }
toml = "0.8"
walkdir = "2"
zip = { version = "0.6", default-features = false, features = ["deflate", "time"] }
