[package]
name = "myls"
version = "0.1.0"
edition = "2021"
publish = false

[dependencies]
chrono = "*"
users = "*"
clap = { version = "*", features = ["derive"] }
