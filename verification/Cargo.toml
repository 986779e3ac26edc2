[package]
name = "turbo_md"
version = "0.1.0"
edition = "2021"
publish = false

[dependencies]
chumsky = "0.9"
clap = { version = "3.2", features = ["derive"] }
