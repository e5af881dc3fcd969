[package]
name = "republisher"
version = "0.1.0"
edition = "2021"
publish = false

[dependencies]
rss = { version = "2", features = ["serde"] }
chrono = "0.4"
serde = { version = "1", features = ["derive"] }
serde_json = "1"
tokio = { version = "1", features = ["macros", "rt-multi-thread", "fs"] }
reqwest = { version = "0.12", default-features = false }
