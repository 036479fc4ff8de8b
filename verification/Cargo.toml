[package]
name = "wdl_bot"
version = "0.1.0"
edition = "2021"
publish = false

[dependencies]
chrono = "=0.4.45"
clap = { version = "=4.6.7", features = ["derive"] }
dotenv = "=0.15.0"
log = "=0.4.34"
rand = "=0.9.5"
reqwest = { version = "=0.12.28", features = ["json"] }
serde = { version = "=1.0.229", features = ["derive"] }
serenity = { version = "=0.12.5", features = ["collector"] }
simplelog = "=0.12.2"
sqlx = { version = "=0.8.6", features = ["mysql", "runtime-tokio-rustls", "chrono"] }
tokio = { version = "=1.53.2", features = ["macros", "rt-multi-thread"] }
toml = "=0.8.23"
whoami = "=1.6.1"
