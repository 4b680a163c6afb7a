[package]
name = "data_harvest"
version = "0.1.0"
edition = "2021"
publish = false

[dependencies]
chrono = "0.4"
chrono-tz = "0.10"
regex = "1"
scraper = "*"
uuid = { version = "1", features = ["v4"] }
reqwest = { version = "0.12", default-features = false }
sqlx = { version = "0.8", default-features = false, features = ["postgres", "runtime-tokio", "uuid", "chrono"] }
finance_api = "0.1.0"
finance_ibex = "0.1.0-beta1"
thiserror = "2"
tracing = "0.1"
