[package]
name = "wikidot_fi"
version = "0.1.0"
edition = "2021"
publish = false

[dependencies]
scraper = "*"
regex = "1"
chrono = { version = "0.4", default-features = false, features = ["std", "clock", "serde"] }
whoami = "*"
sqlx = { version = "0.8", default-features = false, features = ["mysql", "runtime-tokio", "chrono", "derive"] }
reqwest = { version = "0.12", default-features = false }
axum = "0.8"
tokio = { version = "1", features = ["rt-multi-thread", "macros", "net", "time", "sync"] }
serde = { version = "1", features = ["derive"] }
toml = "*"
thiserror = "2"
futures-util = "0.3"
tokio-stream = "0.1"
itertools = "*"
lazy_static = "1"
