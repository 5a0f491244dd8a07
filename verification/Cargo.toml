[package]
name = "todoapp3"
version = "0.1.0"
edition = "2021"
publish = false

[dependencies]
chrono = { version = "0.4", features = ["serde"] }
lazy_static = "1"
markdown = "*"
rustyline = "*"
serde = { version = "1", features = ["derive"] }
serde_json = "1"
snafu = "*"
subprocess = "*"
uuid = { version = "1", features = ["v4", "serde"] }
