[package]
name = "holo"
version = "0.1.0"
edition = "2021"
publish = false

[dependencies]
bytes = "1.10"
fletcher = "*"
ipnetwork = "*"
chrono = "0.4"
tokio = { version = "1", features = ["sync", "macros", "rt", "time"] }
async-trait = "0.1"
serde = { version = "1", features = ["derive"] }
num-traits = "0.2"
