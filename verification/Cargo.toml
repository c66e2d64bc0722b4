[package]
name = "auction_bot"
version = "0.1.0"
edition = "2021"
publish = false

[dependencies]
chrono = "0.4"
rand = "0.8"
log = "0.4"
env_logger = "0.10"
envconfig = "0.10"
serenity = "0.11"
tokio = { version = "1", features = ["macros", "rt-multi-thread", "time", "sync"] }
tokio-postgres = { version = "0.7", features = ["with-chrono-0_4"] }
