[package]
name = "snake_demo"
version = "0.1.0"
edition = "2021"
publish = false

[dependencies]
turbo-genesis-sdk = "*"
borsh = { version = "*", features = ["derive"] }
