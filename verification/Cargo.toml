[package]
name = "silent_crawler"
version = "0.1.0"
edition = "2021"
publish = false

[dependencies]
url = "2"
scraper = "*"
reqwest = "0.12"
tokio = { version = "1", features = ["macros", "rt-multi-thread", "time"] }
futures = "0.3"
rand = "0.9"
clap = { version = "4", features = ["derive"] }
serde = { version = "1", features = ["derive"] }
serde_json = "1"
