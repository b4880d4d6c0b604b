[package]
name = "zebras_launcher"
version = "0.1.0"
edition = "2021"
publish = false

[dependencies]
uuid = { version = "*", features = ["v4"] }
chrono = "*"
serde = { version = "*", features = ["derive"] }
serde_json = "*"
regex = "*"
dirs-next = "*"
once_cell = "*"
walkdir = "*"
tokio = { version = "*", features = ["process", "io-util", "rt", "rt-multi-thread", "sync", "macros", "time"] }
