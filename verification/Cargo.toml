[package]
name = "minescript"
version = "0.1.0"
edition = "2021"
publish = false

[dependencies]
lazy-regex = "3"
clap = { version = "=4.5.61", features = ["derive"] }
dotenvy = "=0.15.7"
chrono = "=0.4.45"
