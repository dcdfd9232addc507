[package]
name = "shop_directory"
version = "0.1.0"
edition = "2021"
publish = false

[dependencies]
url = "2"
chrono = "0.4"
serde = { version = "1", features = ["derive"] }
actix-web = "4"
actix-rt = "2"
actix-files = "0.6"
actix-cors = "0.7"
tokio = { version = "1", features = ["rt", "time", "macros"] }
trust-dns-resolver = "0.23"
dotenv = "0.15"
futures = "0.3"
