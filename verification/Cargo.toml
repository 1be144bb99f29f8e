[package]
name = "bitcoin_client"
version = "0.1.0"
edition = "2021"
publish = false

[dependencies]
sha2 = "0.10"
hex = "0.4"
rand = "0.9"
serde = { version = "1", features = ["derive"] }
serde_json = "1"
tokio = { version = "1", features = ["rt", "rt-multi-thread", "net", "sync"] }
clap = { version = "4", features = ["derive"] }
chrono = "0.4"
colored = "2"
