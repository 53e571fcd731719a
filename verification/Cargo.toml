[package]
name = "sigi"
version = "0.1.0"
edition = "2021"
publish = false

[dependencies]
chrono = { version = "0.4", features = ["serde"] }
clap = { version = "3", features = ["derive"] }
directories = "4"
rustyline = "9"
serde = { version = "1", features = ["derive"] }
serde_json = "1"
