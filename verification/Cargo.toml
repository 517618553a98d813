[package]
name = "hijri"
version = "0.3.0"
edition = "2021"
publish = false

[dependencies]
icu_calendar = "2"
clap = { version = "4", features = ["derive"] }
serde = { version = "1", features = ["derive"] }
serde_json = "1"
time = { version = "0.3", features = ["local-offset"] }
