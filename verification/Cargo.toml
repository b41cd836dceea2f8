[package]
name = "threepole"
version = "0.1.0"
edition = "2021"
publish = false

[dependencies]
chrono = { version = "=0.4.45", features = ["serde"] }
serde = { version = "=1.0.229", features = ["derive"] }
serde_json = "=1.0.154"
tokio = { version = "=1.54.1", features = ["sync", "time", "macros", "rt"] }
async-trait = "=0.1.92"
directories = "=5.0.1"
anyhow = "=1.0.104"
