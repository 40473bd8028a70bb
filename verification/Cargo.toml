[package]
name = "kidplan_downloader"
version = "0.1.0"
edition = "2021"
publish = false

[dependencies]
html-escape = "0.2"
regex = "1"
reqwest = { version = "0.12", features = ["cookies", "json"] }
scraper = "*"
serde = { version = "1", features = ["derive"] }
tokio = { version = "1", features = ["sync", "time"] }
url = "2"
urlencoding = "2"
