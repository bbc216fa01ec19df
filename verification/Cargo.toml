[package]
name = "usdc_indexer"
version = "0.1.0"
edition = "2021"
publish = false

[dependencies]
anyhow = "1"
chrono = { version = "=0.4.45", features = ["serde"] }
clap = { version = "4", features = ["derive"] }
dotenv = "0.15"
serde = { version = "1", features = ["derive"] }
serde_json = "1"
solana-sdk = { version = "=2.3.1", default-features = false }
tokio = { version = "1", features = ["macros", "rt-multi-thread"] }
