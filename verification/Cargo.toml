[package]
name = "thermite"
version = "0.1.0"
edition = "2021"
publish = false

[dependencies]
cron = "*"
chrono = "*"
serde = { version = "*", features = ["derive"] }
serde_json = "*"
thiserror = "*"
clap = "*"
redis = { version = "*", features = ["tokio-comp"] }
reqwest = { version = "*", default-features = false, features = ["json"] }
actix-web = { version = "*", default-features = false, features = ["macros"] }
tokio = { version = "*", features = ["macros", "rt-multi-thread", "sync", "time"] }
lettre = { version = "*", default-features = false, features = ["smtp-transport", "builder"] }
