[package]
name = "hdpc_crawler"
version = "0.1.0"
edition = "2021"
publish = false

[dependencies]
chrono = "*"
html-escape = "*"
serde = { version = "*", features = ["derive"] }
serde_json = "*"
reqwest = { version = "*", default-features = false, features = ["json"] }
tokio = { version = "*", features = ["macros", "rt", "fs", "io-util", "time", "rt-multi-thread"] }
clap = "*"

[dev-dependencies]
str_overlap = "*"
