[package]
name = "tgfeed"
version = "0.1.0"
edition = "2021"
publish = false

[dependencies]
url = "*"
tokio = { version = "*", features = ["macros", "rt-multi-thread", "sync", "time", "signal"] }
chrono = "*"
serde = { version = "*", features = ["derive"] }
reqwest = { version = "*", default-features = false, features = ["json"] }
anyhow = "*"
thiserror = "*"
tracing = "*"
