[package]
name = "summoner_tracker"
version = "0.1.0"
edition = "2021"
publish = false

[dependencies]
anyhow = "1"
async-trait = "0.1"
dotenvy = "0.15"
regex = "1"
reqwest = { version = "0.11", default-features = false, features = ["rustls-tls"] }
scraper = "0.17"
serenity = "0.11"
sqlx = { version = "0.7", default-features = false, features = ["runtime-tokio-rustls", "sqlite"] }
tokio = { version = "1", features = ["rt-multi-thread", "macros", "time", "sync"] }
url = "2"
