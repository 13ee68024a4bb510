[package]
name = "soccer"
version = "0.1.0"
edition = "2021"
publish = false

[dependencies]
chrono = "*"
chrono-tz = "*"
prettytable-rs = "*"
reqwest = { version = "*", default-features = false }
scraper = "*"
tokio = { version = "*", features = ["macros", "rt-multi-thread"] }
