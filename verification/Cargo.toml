[package]
name = "con_comm"
version = "0.1.0"
edition = "2021"

[dependencies]
chrono = { version = "0.4", default-features = false }
regex = "1"
