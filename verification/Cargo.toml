[package]
name = "unical"
version = "0.1.0"
edition = "2021"
publish = false

[dependencies]
scraper = "*"
uuid = { version = "*", features = ["v4"] }
chrono = "*"
serde = { version = "*", features = ["derive"] }
serde_json = "*"
reqwest = { version = "*", default-features = false, features = ["blocking"] }
