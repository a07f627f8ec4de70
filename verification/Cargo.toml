[package]
name = "release-monitor"
version = "0.2.0"
edition = "2021"
publish = false

[dependencies]
clap = { version = "4", features = ["derive"] }
colored = "2"
comfy-table = "7"
reqwest = { version = "0.12", features = ["json"] }
rusqlite = "0.32"
serde = { version = "1", features = ["derive"] }
serde_yaml = "0.9"
tokio = { version = "1", features = ["macros", "rt-multi-thread", "time"] }
