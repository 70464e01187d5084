[package]
name = "emblem"
version = "0.1.0"
edition = "2021"
publish = false

[dependencies]
typed-arena = "2"
clap = { version = "4", features = ["derive", "env"] }
