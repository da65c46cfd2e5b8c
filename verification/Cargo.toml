[package]
name = "patronite_db"
version = "0.1.0"
edition = "2021"
publish = false

[dependencies]
scraper = "*"
reqwest = { version = "*", default-features = false, features = ["blocking"] }
tokio = { version = "*", features = ["macros", "rt-multi-thread"] }
dotenv = "*"
influxdb = { version = "*", features = ["derive"] }
