[package]
name = "bin_collections"
version = "0.1.0"
edition = "2021"
publish = false

[dependencies]
scraper = "*"
chrono = "0.4"
uuid = { version = "1", features = ["v5"] }
actix-web = "4"
actix-files = "0.6"
reqwest = "*"
serde = { version = "1", features = ["derive"] }
serde_json = "1"
dotenv = "0.15"
env_logger = "*"
keyring = "3"
google-calendar = "*"
