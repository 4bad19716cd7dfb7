[package]
name = "tiered_memory"
version = "0.1.0"
edition = "2021"
publish = false

[dependencies]
anyhow = "=1.0.104"
async-openai = { version = "=0.42.1", features = ["chat-completion", "embedding"] }
dotenvy = "=0.15.7"
qdrant-client = "=1.19.0"
serde = { version = "=1.0.229", features = ["derive"] }
serde_json = "=1.0.151"
tokio = { version = "=1.53.2", features = ["rt-multi-thread", "sync", "time", "macros"] }
uuid = { version = "=1.27.0", features = ["v4"] }
