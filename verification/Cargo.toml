[package]
name = "agent_stream_app"
version = "0.1.0"
edition = "2021"
publish = false

[dependencies]
agent-stream-kit = "=0.5.0"
anyhow = "=1.0.104"
ctrlc = "=3.5.2"
dirs = "=7.0.0"
log = "=0.4.34"
serde = { version = "=1.0.229", features = ["derive"] }
serde_json = "=1.0.154"
