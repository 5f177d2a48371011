[package]
name = "mcpg-cluster-api"
version = "0.1.0"
edition = "2021"
publish = false

[dependencies]
async-trait = "0.1"
bytes = { version = "1", features = ["serde"] }
futures = "0.3"
futures-core = "0.3"
serde = { version = "1", features = ["derive"] }
thiserror = "2"
