[package]
name = "cli_schema"
version = "0.1.0"
edition = "2021"
publish = false

[dependencies]
clap = { version = "3", default-features = false, features = ["std"] }
serde = { version = "1", features = ["derive"] }
