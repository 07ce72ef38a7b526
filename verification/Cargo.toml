[package]
name = "kv_store"
version = "0.1.0"
edition = "2021"
publish = false

[dependencies]
serde = { version = "1", features = ["derive"] }
serde_json = "1"
tokio = { version = "1", features = ["full"] }
omnipaxos = { version = "*", features = ["serde"] }
omnipaxos_storage = "*"
